//! The maximum-split strategy: two passes.
//!
//! A highest column of the terrain is a wall for the water on both of its
//! sides. Splitting the terrain there leaves two independent stairs: one
//! that climbs towards the split from the left, and one that descends from
//! it to the right. Each is a running-maximum fold.

use crate::accumulate::pour;
use crate::model::{
    highest, lemma_highest_attained, lemma_highest_bounds, lemma_short_terrain_dry,
    lemma_trapped_nonnegative, lemma_water_split, low_64_bits, reported, trapped,
};
use crate::stair::{
    climb, descent, fold_ascending, fold_descending, lemma_climb_of_prefix, lemma_climbs_to_top,
    lemma_descends_from_top, lemma_descent_of_suffix,
};
use vstd::prelude::*;

verus! {

/// Whether `index` is the first position of the highest elevation of
/// `terrain`.
pub open spec fn is_first_maximum(terrain: Seq<i64>, index: int) -> bool {
    &&& 0 <= index < terrain.len()
    &&& forall|j: int| 0 <= j < terrain.len() ==> terrain[j] <= terrain[index]
    &&& forall|j: int| 0 <= j < index ==> terrain[j] < terrain[index]
}

/// The first maximum of a terrain is at `highest` of the whole terrain.
pub proof fn lemma_first_maximum_is_highest(terrain: Seq<i64>, index: int)
    requires
        is_first_maximum(terrain, index),
    ensures
        terrain[index] == highest(terrain, 0, terrain.len() as int),
{
    let n = terrain.len() as int;
    let top = lemma_highest_attained(terrain, 0, n);
    lemma_highest_bounds(terrain, 0, n, index);
    assert(terrain[top] <= terrain[index]);
}

/// Split at a highest column, a terrain traps what the stair climbing to
/// the split and the stair descending from it hold.
pub proof fn lemma_split_at_top(terrain: Seq<i64>, top: int)
    requires
        0 <= top < terrain.len(),
        terrain[top] == highest(terrain, 0, terrain.len() as int),
    ensures
        trapped(terrain) == climb(terrain.subrange(0, top)) + descent(
            terrain.subrange(top, terrain.len() as int),
        ),
{
    let n = terrain.len() as int;
    lemma_water_split(terrain, 0, top, n);
    lemma_climbs_to_top(terrain, 0, top, top);
    lemma_descends_from_top(terrain, top, n, top);
    lemma_climb_of_prefix(terrain, top);
    lemma_descent_of_suffix(terrain, top);
}

/// The position of the highest elevation of `terrain`, the first one where
/// several columns share it; `None` for an empty terrain.
pub fn index_of_maximum(terrain: &[i64]) -> (found: Option<usize>)
    ensures
        terrain@.len() == 0 <==> found is None,
        found matches Some(index) ==> is_first_maximum(terrain@, index as int),
{
    if terrain.len() == 0 {
        return None;
    }
    let mut index: usize = 0;
    let mut i: usize = 1;
    while i < terrain.len()
        invariant
            0 <= index < i <= terrain.len(),
            forall|j: int| 0 <= j < i ==> terrain@[j] <= terrain@[index as int],
            forall|j: int| 0 <= j < index ==> terrain@[j] < terrain@[index as int],
        decreases terrain.len() - i,
    {
        if terrain[i] > terrain[index] {
            index = i;
        }
        i += 1;
    }
    Some(index)
}

/// The volume of water that `terrain` traps, by splitting it at its first
/// maximum and folding each side towards the split.
///
/// The result is the trapped volume whenever that fits in 64 bits, and its
/// low 64 bits otherwise; it is what the stair climbing to the first maximum
/// and the stair descending from it hold together. A terrain of fewer than
/// three columns traps nothing.
pub fn compute_rain_collected3(terrain: &[i64]) -> (water: u64)
    ensures
        water == reported(terrain@),
        trapped(terrain@) <= u64::MAX ==> water == trapped(terrain@),
        forall|top: int|
            is_first_maximum(terrain@, top) ==> water == low_64_bits(
                climb(terrain@.subrange(0, top)) + descent(
                    terrain@.subrange(top, terrain@.len() as int),
                ),
            ),
{
    proof {
        lemma_trapped_nonnegative(terrain@);
        assert forall|top: int| is_first_maximum(terrain@, top) implies trapped(terrain@)
            == climb(terrain@.subrange(0, top)) + descent(
            terrain@.subrange(top, terrain@.len() as int),
        ) by {
            lemma_first_maximum_is_highest(terrain@, top);
            lemma_split_at_top(terrain@, top);
        }
    }
    let n = terrain.len();
    if n < 3 {
        proof {
            lemma_short_terrain_dry(terrain@);
        }
        return 0;
    }
    let index_maximum = index_of_maximum(terrain).unwrap();
    let (terrain_left_of_max_elevation, terrain_right_of_max_elevation) = terrain.split_at(
        index_maximum,
    );
    let water_capacity_left = fold_ascending(terrain_left_of_max_elevation).1;
    let water_capacity_right = fold_descending(terrain_right_of_max_elevation).1;
    pour(water_capacity_left, water_capacity_right)
}

} // verus!
