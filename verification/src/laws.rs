//! What holds of the trapped volume for every terrain, and of every
//! strategy that computes it.

use crate::max_split::compute_rain_collected3;
use crate::model::{
    highest, left_wall, lemma_end_columns_dry, lemma_highest_attained, lemma_highest_bounds,
    lemma_highest_least, lemma_highest_peel_first, lemma_short_terrain_dry,
    lemma_trapped_nonnegative, lemma_water_at_range, lemma_water_between_range, lemma_water_push,
    lemma_water_push_front, reported, right_wall, trapped, water_at,
};
use crate::reorder::{compute_rain_collected, compute_rain_collected2, compute_rain_collected_v};
use crate::sum::{lemma_sum_bounded, lemma_sum_mirror, lemma_sum_pointwise, sum_over};
use crate::terrain::random_terrain;
use crate::two_pointer::{trap, trap_unsafe, trap_v};
use vstd::math::min;
use vstd::prelude::*;

verus! {

/// Whether `water` is what one of the strategies that borrow their terrain
/// returns for `terrain`.
pub open spec fn computed(terrain: &[i64], water: u64) -> bool {
    ||| call_ensures(trap, (terrain,), water)
    ||| call_ensures(trap_unsafe, (terrain,), water)
    ||| call_ensures(compute_rain_collected, (terrain,), water)
    ||| call_ensures(compute_rain_collected3, (terrain,), water)
}

/// Whether `water` is what one of the strategies that take their terrain by
/// value returns for `terrain`.
pub open spec fn computed_from_owned(terrain: Vec<i64>, water: u64) -> bool {
    ||| call_ensures(trap_v, (terrain,), water)
    ||| call_ensures(compute_rain_collected2, (terrain,), water)
    ||| call_ensures(compute_rain_collected_v, (terrain,), water)
}

/// Every column of the terrain is lower than the one after it.
pub open spec fn strictly_increasing(terrain: Seq<i64>) -> bool {
    forall|i: int, j: int| 0 <= i < j < terrain.len() ==> terrain[i] < terrain[j]
}

/// Every column of the terrain is higher than the one after it.
pub open spec fn strictly_decreasing(terrain: Seq<i64>) -> bool {
    forall|i: int, j: int| 0 <= i < j < terrain.len() ==> terrain[i] > terrain[j]
}

/// The terrain rises, or stays level, up to column `peak`, and falls, or
/// stays level, from there on: no column stands lower than both a column
/// left of it and a column right of it.
pub open spec fn single_peak(terrain: Seq<i64>, peak: int) -> bool {
    &&& 0 <= peak < terrain.len()
    &&& forall|i: int, j: int| 0 <= i < j <= peak ==> terrain[i] <= terrain[j]
    &&& forall|i: int, j: int| peak <= i < j < terrain.len() ==> terrain[i] >= terrain[j]
}

/// The first and the last column are the walls of a basin: no column
/// between them rises above the lower of the two.
pub open spec fn basin(terrain: Seq<i64>) -> bool {
    &&& terrain.len() >= 2
    &&& forall|i: int|
        0 < i < terrain.len() - 1 ==> #[trigger] terrain[i] <= min(
            terrain[0] as int,
            terrain[terrain.len() - 1] as int,
        )
}

/// Whatever strategy computes it, the result is the trapped volume of the
/// terrain, carried in 64 bits.
pub proof fn law_computed_is_reported(terrain: &[i64], water: u64)
    requires
        computed(terrain, water),
    ensures
        water == reported(terrain@),
        trapped(terrain@) <= u64::MAX ==> water == trapped(terrain@),
{
}

/// The strategies that take their terrain by value return the trapped
/// volume of it too.
pub proof fn law_computed_from_owned_is_reported(terrain: Vec<i64>, water: u64)
    requires
        computed_from_owned(terrain, water),
    ensures
        water == reported(terrain@),
        trapped(terrain@) <= u64::MAX ==> water == trapped(terrain@),
{
}

/// A trapped volume that fits in 64 bits is reported as it is.
pub proof fn law_reported_is_exact(terrain: Seq<i64>)
    ensures
        0 <= trapped(terrain),
        trapped(terrain) <= u64::MAX ==> reported(terrain) == trapped(terrain),
{
    lemma_trapped_nonnegative(terrain);
}

/// The volume fits in 64 bits whenever the number of columns times the
/// spread of their elevations does.
pub proof fn law_fits_when_spread_is_small(terrain: Seq<i64>, low: int, high: int)
    requires
        forall|i: int| 0 <= i < terrain.len() ==> low <= #[trigger] terrain[i] <= high,
        terrain.len() * (high - low) <= u64::MAX,
    ensures
        reported(terrain) == trapped(terrain),
{
    lemma_water_between_range(terrain, 0, terrain.len() as int, low, high);
    law_reported_is_exact(terrain);
}

/// All strategies agree: on the same terrain, any two of them return the
/// same result.
pub proof fn law_strategies_agree(terrain: &[i64], one: u64, other: u64)
    requires
        computed(terrain, one),
        computed(terrain, other),
    ensures
        one == other,
{
}

/// The strategies that take their terrain by value agree with those that
/// borrow it.
pub proof fn law_owned_strategies_agree(
    owned: Vec<i64>,
    terrain: &[i64],
    one: u64,
    other: u64,
)
    requires
        owned@ == terrain@,
        computed_from_owned(owned, one),
        computed(terrain, other) || computed_from_owned(owned, other),
    ensures
        one == other,
{
}

/// Computing twice gives the same result twice: what a strategy returns
/// depends on nothing but the elevations and their order.
pub proof fn law_same_terrain_same_result(
    terrain: &[i64],
    again: &[i64],
    first: u64,
    second: u64,
)
    requires
        terrain@.len() == again@.len(),
        forall|i: int| 0 <= i < terrain@.len() ==> terrain@[i] == again@[i],
        computed(terrain, first),
        computed(again, second),
    ensures
        first == second,
{
    assert(terrain@ =~= again@);
}

/// A terrain of random elevations is not so large, nor so uneven, that
/// what it traps would not fit in 64 bits, up to three thousand million
/// columns.
pub proof fn law_random_terrain_fits(size: i64, terrain: Vec<i64>)
    requires
        call_ensures(random_terrain, (size,), terrain),
        size <= 3_000_000_000,
    ensures
        reported(terrain@) == trapped(terrain@),
{
    if size > 0 {
        assert(terrain@.len() * (size - 1 - (1 - size)) <= u64::MAX) by (nonlinear_arith)
            requires
                terrain@.len() == size,
                0 < size <= 3_000_000_000,
        ;
    }
    law_fits_when_spread_is_small(terrain@, 1 - size, size - 1);
}

/// The walls of a column are what their names say: the left wall is the
/// elevation of a column at or left of it and no such column is higher, and
/// the right wall likewise to the right.
pub proof fn law_walls_are_the_highest_columns(terrain: Seq<i64>, i: int)
    requires
        0 <= i < terrain.len(),
    ensures
        forall|j: int| 0 <= j <= i ==> #[trigger] terrain[j] <= left_wall(terrain, i),
        exists|j: int| 0 <= j <= i && #[trigger] terrain[j] == left_wall(terrain, i),
        forall|j: int| i <= j < terrain.len() ==> #[trigger] terrain[j] <= right_wall(terrain, i),
        exists|j: int| i <= j < terrain.len() && #[trigger] terrain[j] == right_wall(terrain, i),
{
    let n = terrain.len() as int;
    assert forall|j: int| 0 <= j <= i implies #[trigger] terrain[j] <= left_wall(terrain, i) by {
        lemma_highest_bounds(terrain, 0, i + 1, j);
    }
    assert forall|j: int| i <= j < n implies #[trigger] terrain[j] <= right_wall(terrain, i) by {
        lemma_highest_bounds(terrain, i, n, j);
    }
    let left = lemma_highest_attained(terrain, 0, i + 1);
    assert(0 <= left <= i && terrain[left] == left_wall(terrain, i));
    let right = lemma_highest_attained(terrain, i, n);
    assert(i <= right < n && terrain[right] == right_wall(terrain, i));
}

/// Every column fills to its lower wall: the trapped volume is the sum,
/// over all columns, of the lower of the column's two walls less the
/// column's own elevation, and no term of that sum is negative.
pub proof fn law_every_column_fills_to_its_lower_wall(terrain: Seq<i64>)
    ensures
        trapped(terrain) == sum_over(
            |i: int| min(left_wall(terrain, i), right_wall(terrain, i)) - terrain[i],
            0,
            terrain.len() as int,
        ),
        forall|i: int|
            0 <= i < terrain.len() ==> 0 <= #[trigger] min(
                left_wall(terrain, i),
                right_wall(terrain, i),
            ) - terrain[i],
{
    let n = terrain.len() as int;
    assert forall|i: int| 0 <= i < n implies 0 <= #[trigger] min(
        left_wall(terrain, i),
        right_wall(terrain, i),
    ) - terrain[i] by {
        lemma_water_at_range(terrain, i);
    }
    lemma_sum_pointwise(
        |i: int| water_at(terrain, i),
        |i: int| min(left_wall(terrain, i), right_wall(terrain, i)) - terrain[i],
        0,
        n,
    );
}

/// A terrain of fewer than three columns traps nothing: it has no column
/// between two others.
pub proof fn law_short_terrain_traps_nothing(terrain: Seq<i64>)
    requires
        terrain.len() < 3,
    ensures
        trapped(terrain) == 0,
        reported(terrain) == 0,
{
    lemma_short_terrain_dry(terrain);
}

/// For a terrain of fewer than two columns every strategy returns zero.
pub proof fn law_short_terrain_computes_zero(terrain: &[i64], water: u64)
    requires
        terrain@.len() < 2,
        computed(terrain, water),
    ensures
        water == 0,
{
    law_short_terrain_traps_nothing(terrain@);
}

/// `highest` of a range of the reversed terrain is `highest` of the
/// mirrored range of the terrain.
pub proof fn lemma_highest_of_reverse(terrain: Seq<i64>, lo: int, hi: int)
    requires
        0 <= lo <= hi <= terrain.len(),
    ensures
        highest(terrain.reverse(), lo, hi) == highest(
            terrain,
            terrain.len() - hi,
            terrain.len() - lo,
        ),
    decreases hi - lo,
{
    if lo < hi {
        lemma_highest_of_reverse(terrain, lo, hi - 1);
        lemma_highest_peel_first(terrain, terrain.len() - hi, terrain.len() - lo);
    }
}

/// Reflection symmetry: a terrain read from right to left traps what it
/// traps read from left to right.
pub proof fn law_reverse_traps_the_same(terrain: Seq<i64>)
    ensures
        trapped(terrain.reverse()) == trapped(terrain),
        reported(terrain.reverse()) == reported(terrain),
{
    let n = terrain.len() as int;
    let mirror = terrain.reverse();
    let here = |i: int| water_at(terrain, i);
    let there = |i: int| water_at(mirror, i);
    assert forall|i: int| 0 <= i < n implies #[trigger] there(i) == here(n - 1 - i) by {
        lemma_highest_of_reverse(terrain, 0, i + 1);
        lemma_highest_of_reverse(terrain, i, n);
    }
    lemma_sum_mirror(here, there, n);
}

/// Reflection symmetry of what is computed: for a terrain and its reverse
/// every strategy returns the same.
pub proof fn law_reverse_computes_the_same(
    terrain: &[i64],
    mirror: &[i64],
    water: u64,
    mirrored: u64,
)
    requires
        mirror@ == terrain@.reverse(),
        computed(terrain, water),
        computed(mirror, mirrored),
    ensures
        water == mirrored,
{
    law_reverse_traps_the_same(terrain@);
}

/// A terrain with a single peak traps nothing: from every column the
/// ground falls away, or stays level, towards one end of the terrain.
pub proof fn law_single_peak_traps_nothing(terrain: Seq<i64>, peak: int)
    requires
        single_peak(terrain, peak),
    ensures
        trapped(terrain) == 0,
        reported(terrain) == 0,
{
    let n = terrain.len() as int;
    let f = |i: int| water_at(terrain, i);
    assert forall|i: int| 0 <= i < n implies 0 <= #[trigger] f(i) <= 0 by {
        lemma_water_at_range(terrain, i);
        if i <= peak {
            assert forall|j: int| 0 <= j < i + 1 implies #[trigger] terrain[j] <= terrain[i] by {}
            lemma_highest_least(terrain, 0, i + 1, terrain[i] as int);
        } else {
            assert forall|j: int| i <= j < n implies #[trigger] terrain[j] <= terrain[i] by {}
            lemma_highest_least(terrain, i, n, terrain[i] as int);
        }
    }
    lemma_sum_bounded(f, 0, n, 0);
}

/// A terrain that rises strictly from column to column, or falls strictly,
/// traps nothing.
pub proof fn law_monotonic_terrain_traps_nothing(terrain: Seq<i64>)
    requires
        strictly_increasing(terrain) || strictly_decreasing(terrain),
    ensures
        trapped(terrain) == 0,
        reported(terrain) == 0,
{
    if terrain.len() > 0 {
        if strictly_increasing(terrain) {
            law_single_peak_traps_nothing(terrain, terrain.len() - 1);
        } else {
            law_single_peak_traps_nothing(terrain, 0);
        }
    }
}

/// For a terrain that rises strictly, or falls strictly, every strategy
/// returns zero.
pub proof fn law_monotonic_terrain_computes_zero(terrain: &[i64], water: u64)
    requires
        strictly_increasing(terrain@) || strictly_decreasing(terrain@),
        computed(terrain, water),
    ensures
        water == 0,
{
    law_monotonic_terrain_traps_nothing(terrain@);
}

/// For a terrain with a single peak every strategy returns zero.
pub proof fn law_single_peak_computes_zero(terrain: &[i64], peak: int, water: u64)
    requires
        single_peak(terrain@, peak),
        computed(terrain, water),
    ensures
        water == 0,
{
    law_single_peak_traps_nothing(terrain@, peak);
}

/// A basin fills to the brim: on every column between its two walls the
/// water stands at the lower wall, and none stands on the walls.
pub proof fn law_basin_fills_to_the_lower_wall(terrain: Seq<i64>)
    requires
        basin(terrain),
    ensures
        trapped(terrain) == sum_over(
            |i: int| min(terrain[0] as int, terrain[terrain.len() - 1] as int) - terrain[i],
            1,
            terrain.len() - 1,
        ),
{
    let n = terrain.len() as int;
    let f = |i: int| water_at(terrain, i);
    let g = |i: int| min(terrain[0] as int, terrain[terrain.len() - 1] as int) - terrain[i];
    assert forall|i: int| 1 <= i < n - 1 implies #[trigger] f(i) == g(i) by {
        assert forall|j: int| 0 <= j < i + 1 implies #[trigger] terrain[j] <= terrain[0] by {}
        lemma_highest_least(terrain, 0, i + 1, terrain[0] as int);
        lemma_highest_bounds(terrain, 0, i + 1, 0);
        assert forall|j: int| i <= j < n implies #[trigger] terrain[j] <= terrain[n - 1] by {}
        lemma_highest_least(terrain, i, n, terrain[n - 1] as int);
        lemma_highest_bounds(terrain, i, n, n - 1);
    }
    lemma_sum_pointwise(f, g, 1, n - 1);
    lemma_end_columns_dry(terrain);
    lemma_water_push_front(terrain, 0, n);
    lemma_water_push(terrain, 1, n - 1);
}

} // verus!
