//! The running-maximum fold, in both directions.
//!
//! Walking towards a highest column of the terrain, water and ground
//! together form a stair: the step at each column is the highest elevation
//! met so far, and the water on the column is the step less its elevation.
//! A fold that carries the step and the water met so far computes this in
//! one pass.

use crate::accumulate::fold_step;
use crate::model::{
    highest, left_wall, lemma_highest_bounds, lemma_highest_peel_first, lemma_highest_widens,
    low_64_bits, right_wall, water_at, water_between,
};
use crate::sum::{lemma_sum_peel_first, lemma_sum_pointwise, lemma_sum_shift, sum_over};
use vstd::prelude::*;

verus! {

/// The water under a stair that climbs from left to right, on columns
/// `lo <= i < hi`: on each, the highest elevation at or left of it, less its
/// own.
pub open spec fn climb_between(terrain: Seq<i64>, lo: int, hi: int) -> int {
    sum_over(|i: int| left_wall(terrain, i) - terrain[i], lo, hi)
}

/// The water under a stair that descends from left to right, on columns
/// `lo <= i < hi`: on each, the highest elevation at or right of it, less
/// its own.
pub open spec fn descent_between(terrain: Seq<i64>, lo: int, hi: int) -> int {
    sum_over(|i: int| right_wall(terrain, i) - terrain[i], lo, hi)
}

/// The water under a stair that climbs over the whole terrain.
pub open spec fn climb(terrain: Seq<i64>) -> int {
    climb_between(terrain, 0, terrain.len() as int)
}

/// The water under a stair that descends over the whole terrain.
pub open spec fn descent(terrain: Seq<i64>) -> int {
    descent_between(terrain, 0, terrain.len() as int)
}

/// `highest` of a range within a part of a terrain is `highest` of the same
/// columns in the terrain.
pub proof fn lemma_highest_of_part(terrain: Seq<i64>, from: int, to: int, lo: int, hi: int)
    requires
        0 <= from <= to <= terrain.len(),
        0 <= lo,
        hi <= to - from,
    ensures
        highest(terrain.subrange(from, to), lo, hi) == highest(terrain, from + lo, from + hi),
    decreases hi - lo,
{
    if lo < hi {
        lemma_highest_of_part(terrain, from, to, lo, hi - 1);
    }
}

/// Left of a highest column of the terrain, the water stands under a stair
/// that climbs.
pub proof fn lemma_climbs_to_top(terrain: Seq<i64>, lo: int, hi: int, top: int)
    requires
        0 <= lo <= hi <= top < terrain.len(),
        terrain[top] == highest(terrain, 0, terrain.len() as int),
    ensures
        water_between(terrain, lo, hi) == climb_between(terrain, lo, hi),
{
    let n = terrain.len() as int;
    assert forall|i: int| lo <= i < hi implies water_at(terrain, i) == left_wall(terrain, i)
        - terrain[i] by {
        lemma_highest_bounds(terrain, i, n, top);
        lemma_highest_widens(terrain, 0, i + 1, 0, n);
    }
    lemma_sum_pointwise(
        |i: int| water_at(terrain, i),
        |i: int| left_wall(terrain, i) - terrain[i],
        lo,
        hi,
    );
}

/// From a highest column of the terrain on to the right, the water stands
/// under a stair that descends.
pub proof fn lemma_descends_from_top(terrain: Seq<i64>, lo: int, hi: int, top: int)
    requires
        0 <= top <= lo <= hi <= terrain.len(),
        terrain[top] == highest(terrain, 0, terrain.len() as int),
    ensures
        water_between(terrain, lo, hi) == descent_between(terrain, lo, hi),
{
    let n = terrain.len() as int;
    assert forall|i: int| lo <= i < hi implies water_at(terrain, i) == right_wall(terrain, i)
        - terrain[i] by {
        lemma_highest_bounds(terrain, 0, i + 1, top);
        lemma_highest_widens(terrain, i, n, 0, n);
    }
    lemma_sum_pointwise(
        |i: int| water_at(terrain, i),
        |i: int| right_wall(terrain, i) - terrain[i],
        lo,
        hi,
    );
}

/// A stair that climbs over the first columns of a terrain does not depend
/// on the columns after them.
pub proof fn lemma_climb_of_prefix(terrain: Seq<i64>, mid: int)
    requires
        0 <= mid <= terrain.len(),
    ensures
        climb(terrain.subrange(0, mid)) == climb_between(terrain, 0, mid),
{
    let part = terrain.subrange(0, mid);
    assert forall|i: int| 0 <= i < mid implies left_wall(part, i) - part[i] == left_wall(
        terrain,
        i,
    ) - terrain[i] by {
        lemma_highest_of_part(terrain, 0, mid, 0, i + 1);
    }
    lemma_sum_pointwise(
        |i: int| left_wall(part, i) - part[i],
        |i: int| left_wall(terrain, i) - terrain[i],
        0,
        mid,
    );
}

/// A stair that descends over the last columns of a terrain does not depend
/// on the columns before them.
pub proof fn lemma_descent_of_suffix(terrain: Seq<i64>, mid: int)
    requires
        0 <= mid <= terrain.len(),
    ensures
        descent(terrain.subrange(mid, terrain.len() as int)) == descent_between(
            terrain,
            mid,
            terrain.len() as int,
        ),
{
    let n = terrain.len() as int;
    let part = terrain.subrange(mid, n);
    let in_part = |i: int| right_wall(part, i) - part[i];
    let in_whole = |i: int| right_wall(terrain, i) - terrain[i];
    assert forall|i: int| 0 <= i < n - mid implies #[trigger] in_part(i) == in_whole(i + mid) by {
        lemma_highest_of_part(terrain, mid, n, i, n - mid);
    }
    lemma_sum_shift(in_whole, in_part, 0, n - mid, mid);
}

/// The running-maximum fold from left to right: the highest elevation of
/// `part`, or `i64::MIN` if it is empty, and the water under the stair that
/// climbs over it, kept in 64 bits.
pub fn fold_ascending(part: &[i64]) -> (stair: (i64, u64))
    ensures
        stair.0 == highest(part@, 0, part@.len() as int),
        stair.1 == low_64_bits(climb(part@)),
{
    let mut stair = (i64::MIN, 0u64);
    let mut i: usize = 0;
    while i < part.len()
        invariant
            i <= part.len(),
            stair.0 == highest(part@, 0, i as int),
            stair.1 == low_64_bits(climb_between(part@, 0, i as int)),
        decreases part.len() - i,
    {
        stair = fold_step(stair, part[i]);
        i += 1;
    }
    stair
}

/// The running-maximum fold from right to left: the highest elevation of
/// `part`, or `i64::MIN` if it is empty, and the water under the stair that
/// descends over it, kept in 64 bits.
pub fn fold_descending(part: &[i64]) -> (stair: (i64, u64))
    ensures
        stair.0 == highest(part@, 0, part@.len() as int),
        stair.1 == low_64_bits(descent(part@)),
{
    let mut stair = (i64::MIN, 0u64);
    let mut i: usize = part.len();
    while i > 0
        invariant
            i <= part.len(),
            stair.0 == highest(part@, i as int, part@.len() as int),
            stair.1 == low_64_bits(descent_between(part@, i as int, part@.len() as int)),
        decreases i,
    {
        i -= 1;
        proof {
            let n = part@.len() as int;
            lemma_highest_peel_first(part@, i as int, n);
            lemma_sum_peel_first(|k: int| right_wall(part@, k) - part@[k], i as int, n);
        }
        stair = fold_step(stair, part[i]);
    }
    stair
}

} // verus!
