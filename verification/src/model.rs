//! What "the water a terrain traps" means, stated without reference to any
//! way of computing it.
//!
//! Column `i` of a terrain is bounded by the highest column at or left of it
//! and by the highest column at or right of it. Water stands on it up to the
//! lower of the two, and the volume on it is that level less its own
//! elevation. The trapped volume is the sum over all columns.

use crate::sum::{lemma_sum_bounded, lemma_sum_peel_first, lemma_sum_split, sum_over};
use vstd::math::{max, min};
use vstd::prelude::*;

verus! {

/// The highest elevation among columns `lo <= i < hi`. For an empty range it
/// is the lowest elevation there is, which never wins a comparison.
pub open spec fn highest(terrain: Seq<i64>, lo: int, hi: int) -> int
    decreases hi - lo,
{
    if hi <= lo {
        i64::MIN as int
    } else {
        max(highest(terrain, lo, hi - 1), terrain[hi - 1] as int)
    }
}

/// The highest elevation at or left of column `i`.
pub open spec fn left_wall(terrain: Seq<i64>, i: int) -> int
    recommends
        0 <= i < terrain.len(),
{
    highest(terrain, 0, i + 1)
}

/// The highest elevation at or right of column `i`.
pub open spec fn right_wall(terrain: Seq<i64>, i: int) -> int
    recommends
        0 <= i < terrain.len(),
{
    highest(terrain, i, terrain.len() as int)
}

/// The level up to which water stands on column `i`.
pub open spec fn water_level(terrain: Seq<i64>, i: int) -> int
    recommends
        0 <= i < terrain.len(),
{
    min(left_wall(terrain, i), right_wall(terrain, i))
}

/// The volume of water standing on column `i`.
pub open spec fn water_at(terrain: Seq<i64>, i: int) -> int
    recommends
        0 <= i < terrain.len(),
{
    water_level(terrain, i) - terrain[i]
}

/// The volume of water standing on columns `lo <= i < hi`.
pub open spec fn water_between(terrain: Seq<i64>, lo: int, hi: int) -> int {
    sum_over(|i: int| water_at(terrain, i), lo, hi)
}

/// The volume of water that the whole terrain traps.
pub open spec fn trapped(terrain: Seq<i64>) -> int {
    water_between(terrain, 0, terrain.len() as int)
}

/// The low 64 bits of a volume: the volume itself whenever it fits.
pub open spec fn low_64_bits(volume: int) -> u64 {
    (volume % 0x1_0000_0000_0000_0000) as u64
}

/// The trapped volume as a 64-bit result carries it: exact whenever the
/// volume is at most `u64::MAX`, and its low 64 bits otherwise.
pub open spec fn reported(terrain: Seq<i64>) -> u64 {
    low_64_bits(trapped(terrain))
}

/// `highest` stays within the range of elevations.
pub proof fn lemma_highest_range(terrain: Seq<i64>, lo: int, hi: int)
    ensures
        i64::MIN <= highest(terrain, lo, hi) <= i64::MAX,
    decreases hi - lo,
{
    if lo < hi {
        lemma_highest_range(terrain, lo, hi - 1);
    }
}

/// No column of the range is higher than `highest` of the range.
pub proof fn lemma_highest_bounds(terrain: Seq<i64>, lo: int, hi: int, i: int)
    requires
        lo <= i < hi,
    ensures
        terrain[i] <= highest(terrain, lo, hi),
    decreases hi - lo,
{
    if i < hi - 1 {
        lemma_highest_bounds(terrain, lo, hi - 1, i);
    }
}

/// `highest` of a range that is not empty is the elevation of one of its
/// columns.
pub proof fn lemma_highest_attained(terrain: Seq<i64>, lo: int, hi: int) -> (i: int)
    requires
        lo < hi,
    ensures
        lo <= i < hi,
        terrain[i] == highest(terrain, lo, hi),
    decreases hi - lo,
{
    lemma_highest_range(terrain, lo, hi - 1);
    if lo < hi - 1 && highest(terrain, lo, hi - 1) >= terrain[hi - 1] {
        lemma_highest_attained(terrain, lo, hi - 1)
    } else {
        hi - 1
    }
}

/// Whatever bounds every column of a range from above bounds `highest` of it,
/// provided it is an elevation itself.
pub proof fn lemma_highest_least(terrain: Seq<i64>, lo: int, hi: int, bound: int)
    requires
        i64::MIN <= bound,
        forall|i: int| lo <= i < hi ==> #[trigger] terrain[i] <= bound,
    ensures
        highest(terrain, lo, hi) <= bound,
    decreases hi - lo,
{
    if lo < hi {
        lemma_highest_least(terrain, lo, hi - 1, bound);
        assert(terrain[hi - 1] <= bound);
    }
}

/// `highest` of a range is the larger of `highest` of its two parts.
pub proof fn lemma_highest_split(terrain: Seq<i64>, lo: int, mid: int, hi: int)
    requires
        lo <= mid <= hi,
    ensures
        highest(terrain, lo, hi) == max(highest(terrain, lo, mid), highest(terrain, mid, hi)),
    decreases hi - mid,
{
    lemma_highest_range(terrain, lo, mid);
    if mid < hi {
        lemma_highest_split(terrain, lo, mid, hi - 1);
    }
}

/// `highest` can be taken apart at the first column as well as at the last.
pub proof fn lemma_highest_peel_first(terrain: Seq<i64>, lo: int, hi: int)
    requires
        lo < hi,
    ensures
        highest(terrain, lo, hi) == max(terrain[lo] as int, highest(terrain, lo + 1, hi)),
{
    lemma_highest_split(terrain, lo, lo + 1, hi);
    assert(highest(terrain, lo, lo) == i64::MIN);
}

/// A wider range has a `highest` that is at least as high.
pub proof fn lemma_highest_widens(terrain: Seq<i64>, lo: int, hi: int, wide_lo: int, wide_hi: int)
    requires
        wide_lo <= lo <= hi <= wide_hi,
    ensures
        highest(terrain, lo, hi) <= highest(terrain, wide_lo, wide_hi),
{
    lemma_highest_split(terrain, wide_lo, lo, wide_hi);
    lemma_highest_split(terrain, lo, hi, wide_hi);
}

/// On every column the water stands at or above the ground, and below the
/// highest column of the terrain.
pub proof fn lemma_water_at_range(terrain: Seq<i64>, i: int)
    requires
        0 <= i < terrain.len(),
    ensures
        0 <= water_at(terrain, i) <= highest(terrain, 0, terrain.len() as int) - terrain[i],
{
    let n = terrain.len() as int;
    lemma_highest_bounds(terrain, 0, i + 1, i);
    lemma_highest_bounds(terrain, i, n, i);
    lemma_highest_widens(terrain, 0, i + 1, 0, n);
}

/// The water on a range of columns is the water on its two parts.
pub proof fn lemma_water_split(terrain: Seq<i64>, lo: int, mid: int, hi: int)
    requires
        lo <= mid <= hi,
    ensures
        water_between(terrain, lo, hi) == water_between(terrain, lo, mid) + water_between(
            terrain,
            mid,
            hi,
        ),
{
    lemma_sum_split(|i: int| water_at(terrain, i), lo, mid, hi);
}

/// Adding the column after a range adds the water on it.
pub proof fn lemma_water_push(terrain: Seq<i64>, lo: int, hi: int)
    requires
        lo <= hi,
    ensures
        water_between(terrain, lo, hi + 1) == water_between(terrain, lo, hi) + water_at(
            terrain,
            hi,
        ),
{
}

/// Adding the column before a range adds the water on it.
pub proof fn lemma_water_push_front(terrain: Seq<i64>, lo: int, hi: int)
    requires
        lo < hi,
    ensures
        water_between(terrain, lo, hi) == water_at(terrain, lo) + water_between(
            terrain,
            lo + 1,
            hi,
        ),
{
    lemma_sum_peel_first(|i: int| water_at(terrain, i), lo, hi);
}

/// The water on a range of columns is never negative, and at most the
/// number of columns times the spread between any two bounds of the
/// terrain's elevations.
pub proof fn lemma_water_between_range(terrain: Seq<i64>, lo: int, hi: int, low: int, high: int)
    requires
        0 <= lo <= hi <= terrain.len(),
        forall|i: int| 0 <= i < terrain.len() ==> low <= #[trigger] terrain[i] <= high,
    ensures
        0 <= water_between(terrain, lo, hi) <= (hi - lo) * (high - low),
{
    let n = terrain.len() as int;
    let f = |i: int| water_at(terrain, i);
    assert forall|i: int| lo <= i < hi implies 0 <= #[trigger] f(i) <= high - low by {
        lemma_water_at_range(terrain, i);
        let top = lemma_highest_attained(terrain, 0, n);
        assert(low <= terrain[top] <= high);
        assert(low <= terrain[i] <= high);
    }
    lemma_sum_bounded(f, lo, hi, high - low);
}

/// No water stands on the first column of a terrain, nor on the last.
pub proof fn lemma_end_columns_dry(terrain: Seq<i64>)
    requires
        terrain.len() > 0,
    ensures
        water_at(terrain, 0) == 0,
        water_at(terrain, terrain.len() - 1) == 0,
{
    let n = terrain.len() as int;
    lemma_highest_range(terrain, 0, 0);
    lemma_highest_range(terrain, n - 1, n - 1);
    lemma_highest_bounds(terrain, 0, n, 0);
    lemma_highest_bounds(terrain, 0, n, n - 1);
}

/// A terrain of fewer than three columns has no column between two others,
/// and traps nothing.
pub proof fn lemma_short_terrain_dry(terrain: Seq<i64>)
    requires
        terrain.len() < 3,
    ensures
        trapped(terrain) == 0,
{
    let n = terrain.len() as int;
    if n > 0 {
        lemma_end_columns_dry(terrain);
        lemma_water_push_front(terrain, 0, n);
        if n == 2 {
            lemma_water_push_front(terrain, 1, n);
        }
    }
}

/// The trapped volume is never negative.
pub proof fn lemma_trapped_nonnegative(terrain: Seq<i64>)
    ensures
        0 <= trapped(terrain),
{
    lemma_water_between_range(
        terrain,
        0,
        terrain.len() as int,
        i64::MIN as int,
        i64::MAX as int,
    );
}

} // verus!
