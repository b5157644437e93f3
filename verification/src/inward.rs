//! Walking a terrain inward from both ends, always passing the lower of the
//! two end columns first.
//!
//! Every column passed this way is bounded on its far side by a column at
//! least as high as anything passed before it, so its water level is known
//! the moment it is passed: it is the highest elevation passed so far,
//! itself included. The column that is left at the end is a highest column
//! of the terrain and holds no water.

use crate::model::{
    highest, lemma_highest_bounds, lemma_highest_peel_first, lemma_highest_range,
    lemma_highest_split, lemma_water_push_front, lemma_water_split, trapped, water_at,
    water_between,
};
use vstd::math::max;
use vstd::prelude::*;

verus! {

/// The highest elevation among the columns already passed when columns
/// `left ..= right` are still ahead.
pub open spec fn passed_top(terrain: Seq<i64>, left: int, right: int) -> int {
    max(highest(terrain, 0, left), highest(terrain, right + 1, terrain.len() as int))
}

/// What holds of the columns `left ..= right` that are still ahead whenever
/// the lower end was passed first at every step: nothing passed on either
/// side rises above the wall that faces it, and one of the two end columns
/// is at least as high as everything passed.
pub open spec fn inward_window(terrain: Seq<i64>, left: int, right: int) -> bool {
    &&& 0 <= left <= right < terrain.len()
    &&& highest(terrain, 0, left) <= highest(terrain, right, terrain.len() as int)
    &&& highest(terrain, right + 1, terrain.len() as int) <= highest(terrain, 0, left + 1)
    &&& passed_top(terrain, left, right) <= max(terrain[left] as int, terrain[right] as int)
}

/// The water on the columns that the walk has settled when columns
/// `left ..= right` are still ahead.
pub open spec fn settled_water(terrain: Seq<i64>, left: int, right: int) -> int {
    water_between(terrain, 0, left) + water_between(terrain, right + 1, terrain.len() as int)
}

/// Before any column is passed, the whole terrain is ahead.
pub proof fn lemma_inward_start(terrain: Seq<i64>)
    requires
        terrain.len() > 0,
    ensures
        inward_window(terrain, 0, terrain.len() - 1),
        passed_top(terrain, 0, terrain.len() - 1) == i64::MIN,
        settled_water(terrain, 0, terrain.len() - 1) == 0,
{
}

/// Passing the left end column when it is not higher than the right one:
/// the water on it stands at the highest elevation passed so far, itself
/// included, it is settled with that, and the rest is again a window.
pub proof fn lemma_inward_pass_left(terrain: Seq<i64>, left: int, right: int)
    requires
        inward_window(terrain, left, right),
        left < right,
        terrain[left] <= terrain[right],
    ensures
        inward_window(terrain, left + 1, right),
        passed_top(terrain, left + 1, right) == max(
            passed_top(terrain, left, right),
            terrain[left] as int,
        ),
        water_at(terrain, left) == passed_top(terrain, left + 1, right) - terrain[left],
        settled_water(terrain, left + 1, right) == settled_water(terrain, left, right)
            + water_at(terrain, left),
{
    let n = terrain.len() as int;
    lemma_highest_bounds(terrain, left, n, right);
    lemma_highest_bounds(terrain, right, n, right);
    assert(highest(terrain, 0, left + 1) == max(highest(terrain, 0, left), terrain[left] as int));
    assert(highest(terrain, 0, left + 2) >= highest(terrain, 0, left + 1));
}

/// Passing the right end column when it is lower than the left one: the
/// mirror image of [`lemma_inward_pass_left`].
pub proof fn lemma_inward_pass_right(terrain: Seq<i64>, left: int, right: int)
    requires
        inward_window(terrain, left, right),
        left < right,
        terrain[left] > terrain[right],
    ensures
        inward_window(terrain, left, right - 1),
        passed_top(terrain, left, right - 1) == max(
            passed_top(terrain, left, right),
            terrain[right] as int,
        ),
        water_at(terrain, right) == passed_top(terrain, left, right - 1) - terrain[right],
        settled_water(terrain, left, right - 1) == settled_water(terrain, left, right)
            + water_at(terrain, right),
{
    let n = terrain.len() as int;
    lemma_water_push_front(terrain, right, n);
    lemma_highest_bounds(terrain, 0, right + 1, left);
    lemma_highest_peel_first(terrain, right, n);
    lemma_highest_peel_first(terrain, right - 1, n);
}

/// The one column left at the end is a highest column of the terrain, and
/// no water stands on it.
pub proof fn lemma_inward_end(terrain: Seq<i64>, last: int)
    requires
        inward_window(terrain, last, last),
    ensures
        terrain[last] == highest(terrain, 0, terrain.len() as int),
        water_at(terrain, last) == 0,
{
    let n = terrain.len() as int;
    lemma_highest_split(terrain, 0, last, n);
    lemma_highest_split(terrain, last, last + 1, n);
    lemma_highest_range(terrain, last, last);
}

/// When one column is left, what the walk has settled is all the water
/// there is.
pub proof fn lemma_settled_all(terrain: Seq<i64>, last: int)
    requires
        inward_window(terrain, last, last),
    ensures
        settled_water(terrain, last, last) == trapped(terrain),
{
    let n = terrain.len() as int;
    lemma_inward_end(terrain, last);
    lemma_water_split(terrain, 0, last, n);
    lemma_water_push_front(terrain, last, n);
}

} // verus!
