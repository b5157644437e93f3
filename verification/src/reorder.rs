//! The reordering strategy: one pass over a terrain read from both ends.
//!
//! Taking at every step the lower of the first and the last column still to
//! come puts the columns of a terrain in a new order. The new order holds
//! the same columns, ends on a highest one, and traps the same volume of
//! water. Ending on a highest column, it is a single stair that climbs, so
//! one running-maximum fold over it gives the volume.
//!
//! The columns are read through an iterator that gives from both ends, so
//! the terrain is never indexed.

use crate::accumulate::fold_step;
use crate::inward::{
    inward_window, lemma_inward_end, lemma_inward_pass_left, lemma_inward_pass_right,
    lemma_inward_start, lemma_settled_all, passed_top, settled_water,
};
use crate::model::{
    highest, lemma_end_columns_dry, lemma_trapped_nonnegative, low_64_bits, reported, trapped,
};
use crate::stair::{climb, climb_between, lemma_climbs_to_top};
use vstd::multiset::Multiset;
use vstd::prelude::*;
use vstd::seq_lib::{to_multiset_build, to_multiset_insert, to_multiset_len};
use vstd::std_specs::iter::IteratorSpec;

verus! {

/// The columns still to come after one more step: the lower end column of
/// `window` is taken, the left one if both are equally high. A window of
/// one column stays as it is.
pub open spec fn narrowed(terrain: Seq<i64>, window: (int, int)) -> (int, int) {
    if window.0 >= window.1 {
        window
    } else if terrain[window.0] <= terrain[window.1] {
        (window.0 + 1, window.1)
    } else {
        (window.0, window.1 - 1)
    }
}

/// The first and the last column still to come after `steps` steps.
pub open spec fn window_after(terrain: Seq<i64>, steps: nat) -> (int, int)
    decreases steps,
{
    if steps == 0 {
        (0, terrain.len() - 1)
    } else {
        narrowed(terrain, window_after(terrain, (steps - 1) as nat))
    }
}

/// The elevation of the column taken at step `step`, counting from zero.
pub open spec fn taken_at(terrain: Seq<i64>, step: int) -> i64 {
    let window = window_after(terrain, step as nat);
    if terrain[window.0] <= terrain[window.1] {
        terrain[window.0]
    } else {
        terrain[window.1]
    }
}

/// The columns of a terrain in the order in which they are taken.
pub open spec fn reordered(terrain: Seq<i64>) -> Seq<i64> {
    Seq::new(terrain.len(), |step: int| taken_at(terrain, step))
}

/// What the steps taken so far have established: the window is one that
/// the inward walk reaches, the columns taken are the ones outside it, and
/// a stair climbing over them holds the water that stands on them in the
/// terrain.
pub open spec fn taken_so_far(terrain: Seq<i64>, steps: int) -> bool {
    let window = window_after(terrain, steps as nat);
    &&& inward_window(terrain, window.0, window.1)
    &&& window.1 - window.0 == terrain.len() - 1 - steps
    &&& highest(reordered(terrain), 0, steps) == passed_top(terrain, window.0, window.1)
    &&& climb_between(reordered(terrain), 0, steps) == settled_water(
        terrain,
        window.0,
        window.1,
    )
}

/// Every step of the walk keeps what [`taken_so_far`] says.
pub proof fn lemma_taken_so_far(terrain: Seq<i64>, steps: int)
    requires
        0 <= steps < terrain.len(),
    ensures
        taken_so_far(terrain, steps),
    decreases steps,
{
    let order = reordered(terrain);
    if steps == 0 {
        lemma_inward_start(terrain);
    } else {
        lemma_taken_so_far(terrain, steps - 1);
        let before = window_after(terrain, (steps - 1) as nat);
        assert(order[steps - 1] == taken_at(terrain, steps - 1));
        if terrain[before.0] <= terrain[before.1] {
            lemma_inward_pass_left(terrain, before.0, before.1);
        } else {
            lemma_inward_pass_right(terrain, before.0, before.1);
        }
    }
}

/// No columns make an empty multiset.
proof fn lemma_nothing_to_multiset()
    ensures
        Seq::<i64>::empty().to_multiset() == Multiset::<i64>::empty(),
{
    to_multiset_len(Seq::<i64>::empty());
}

/// The columns taken so far and the columns still to come are together the
/// columns of the terrain.
pub proof fn lemma_taken_and_coming(terrain: Seq<i64>, steps: int)
    requires
        0 <= steps < terrain.len(),
    ensures
        ({
            let window = window_after(terrain, steps as nat);
            reordered(terrain).subrange(0, steps).to_multiset().add(
                terrain.subrange(window.0, window.1 + 1).to_multiset(),
            ) == terrain.to_multiset()
        }),
    decreases steps,
{
    let order = reordered(terrain);
    let n = terrain.len() as int;
    let window = window_after(terrain, steps as nat);
    lemma_taken_so_far(terrain, steps);
    let all = order.subrange(0, steps).to_multiset().add(
        terrain.subrange(window.0, window.1 + 1).to_multiset(),
    );
    if steps == 0 {
        lemma_nothing_to_multiset();
        assert(order.subrange(0, 0) =~= Seq::<i64>::empty());
        assert(terrain.subrange(0, n) =~= terrain);
        assert(all =~= terrain.to_multiset());
    } else {
        lemma_taken_and_coming(terrain, steps - 1);
        lemma_taken_so_far(terrain, steps - 1);
        let before = window_after(terrain, (steps - 1) as nat);
        let taken = order.subrange(0, steps - 1);
        assert(order[steps - 1] == taken_at(terrain, steps - 1));
        assert(order.subrange(0, steps) =~= taken.push(order[steps - 1]));
        to_multiset_build(taken, order[steps - 1]);
        if terrain[before.0] <= terrain[before.1] {
            let coming = terrain.subrange(before.0 + 1, before.1 + 1);
            assert(terrain.subrange(before.0, before.1 + 1) =~= coming.insert(
                0,
                terrain[before.0],
            ));
            to_multiset_insert(coming, 0, terrain[before.0]);
        } else {
            let coming = terrain.subrange(before.0, before.1);
            assert(terrain.subrange(before.0, before.1 + 1) =~= coming.push(terrain[before.1]));
            to_multiset_build(coming, terrain[before.1]);
        }
        assert(all =~= terrain.to_multiset());
    }
}

/// The new order holds the columns of the terrain, each as often as the
/// terrain does.
pub proof fn law_reordered_same_columns(terrain: Seq<i64>)
    ensures
        reordered(terrain).len() == terrain.len(),
        reordered(terrain).to_multiset() == terrain.to_multiset(),
{
    let order = reordered(terrain);
    let n = terrain.len() as int;
    if n == 0 {
        assert(order =~= terrain);
    } else {
        lemma_taken_and_coming(terrain, n - 1);
        lemma_taken_so_far(terrain, n - 1);
        let window = window_after(terrain, (n - 1) as nat);
        let taken = order.subrange(0, n - 1);
        assert(order[n - 1] == taken_at(terrain, n - 1));
        assert(order =~= taken.push(terrain[window.0]));
        assert(terrain.subrange(window.0, window.0 + 1) =~= Seq::<i64>::empty().push(
            terrain[window.0],
        ));
        lemma_nothing_to_multiset();
        to_multiset_build(taken, terrain[window.0]);
        to_multiset_build(Seq::<i64>::empty(), terrain[window.0]);
        assert(order.to_multiset() =~= terrain.to_multiset());
    }
}

/// The new order ends on a highest column, of the terrain and of itself.
pub proof fn law_reordered_ends_on_top(terrain: Seq<i64>)
    requires
        terrain.len() > 0,
    ensures
        reordered(terrain).last() == highest(terrain, 0, terrain.len() as int),
        reordered(terrain).last() == highest(reordered(terrain), 0, terrain.len() as int),
{
    let n = terrain.len() as int;
    lemma_taken_so_far(terrain, n - 1);
    let window = window_after(terrain, (n - 1) as nat);
    lemma_inward_end(terrain, window.0);
    assert(reordered(terrain)[n - 1] == taken_at(terrain, n - 1));
}

/// A stair that climbs over the new order holds what the terrain traps.
pub proof fn law_reordered_climb(terrain: Seq<i64>)
    ensures
        climb(reordered(terrain)) == trapped(terrain),
        terrain.len() > 0 ==> climb(reordered(terrain)) == climb_between(
            reordered(terrain),
            0,
            terrain.len() - 1,
        ),
{
    let n = terrain.len() as int;
    if n > 0 {
        lemma_taken_so_far(terrain, n - 1);
        law_reordered_ends_on_top(terrain);
        let window = window_after(terrain, (n - 1) as nat);
        lemma_settled_all(terrain, window.0);
    }
}

/// The new order traps the volume that the terrain traps.
pub proof fn law_reordered_traps_the_same(terrain: Seq<i64>)
    ensures
        trapped(reordered(terrain)) == trapped(terrain),
{
    let n = terrain.len() as int;
    let order = reordered(terrain);
    if n > 0 {
        law_reordered_climb(terrain);
        law_reordered_ends_on_top(terrain);
        lemma_climbs_to_top(order, 0, n - 1, n - 1);
        lemma_end_columns_dry(order);
    }
}

/// Takes the next item from the front of `iter`, if there is one.
fn take_front<I: Iterator>(iter: &mut I) -> (item: Option<I::Item>)
    ensures
        (*final(iter)).obeys_prophetic_iter_laws() == (*old(iter)).obeys_prophetic_iter_laws(),
        (*old(iter)).obeys_prophetic_iter_laws() && (*old(iter)).remaining().len() > 0 ==> {
            &&& item == Some((*old(iter)).remaining().first())
            &&& (*final(iter)).remaining() == (*old(iter)).remaining().drop_first()
        },
        (*old(iter)).obeys_prophetic_iter_laws() && (*old(iter)).remaining().len() == 0 ==> {
            &&& item is None
            &&& (*final(iter)).remaining() == (*old(iter)).remaining()
        },
{
    iter.next()
}

/// Takes the next item from the back of `iter`, if there is one.
fn take_back<I: DoubleEndedIterator>(iter: &mut I) -> (item: Option<I::Item>)
    ensures
        (*final(iter)).obeys_prophetic_iter_laws() == (*old(iter)).obeys_prophetic_iter_laws(),
        (*old(iter)).obeys_prophetic_iter_laws() && (*old(iter)).remaining().len() > 0 ==> {
            &&& item == Some((*old(iter)).remaining().last())
            &&& (*final(iter)).remaining() == (*old(iter)).remaining().drop_last()
        },
        (*old(iter)).obeys_prophetic_iter_laws() && (*old(iter)).remaining().len() == 0 ==> {
            &&& item is None
            &&& (*final(iter)).remaining() == (*old(iter)).remaining()
        },
{
    iter.next_back()
}

/// The volume of water that `height` traps, by folding the running maximum
/// over the columns as they are taken from both ends, the lower one first.
///
/// The result is the trapped volume whenever that fits in 64 bits, and its
/// low 64 bits otherwise; it is what a stair climbing over the reordered
/// terrain holds. The fold stops short of the last column of the new order:
/// that is a highest one, and no water stands on it.
pub fn compute_rain_collected(height: &[i64]) -> (water: u64)
    ensures
        water == reported(height@),
        water == low_64_bits(climb(reordered(height@))),
        trapped(height@) <= u64::MAX ==> water == trapped(height@),
{
    let ghost terrain = height@;
    let ghost order = reordered(terrain);
    let ghost n = terrain.len() as int;
    proof {
        lemma_trapped_nonnegative(terrain);
        law_reordered_climb(terrain);
    }
    let mut hiter = height.iter();
    let first = take_front(&mut hiter);
    let last = take_back(&mut hiter);
    let mut state = (first, last);
    let mut stair = (i64::MIN, 0u64);
    let ghost mut steps: int = 0;
    while state.0.is_some() && state.1.is_some()
        invariant
            order == reordered(terrain),
            n == terrain.len(),
            0 <= steps,
            hiter.obeys_prophetic_iter_laws(),
            state.0 is Some && state.1 is Some ==> {
                let window = window_after(terrain, steps as nat);
                &&& steps < n - 1
                &&& window.1 - window.0 == n - 1 - steps
                &&& 0 <= window.0 < window.1 < n
                &&& *state.0->0 == terrain[window.0]
                &&& *state.1->0 == terrain[window.1]
                &&& hiter.remaining().len() == window.1 - window.0 - 1
                &&& forall|i: int|
                    0 <= i < hiter.remaining().len() ==> *(#[trigger] hiter.remaining()[i])
                        == terrain[window.0 + 1 + i]
            },
            !(state.0 is Some && state.1 is Some) ==> n == 0 || steps == n - 1,
            n > 0 ==> stair.0 == highest(order, 0, steps),
            n > 0 ==> stair.1 == low_64_bits(climb_between(order, 0, steps)),
            n == 0 ==> stair.1 == 0,
        decreases n - steps,
    {
        let left = state.0.unwrap();
        let right = state.1.unwrap();
        if *left <= *right {
            state = (take_front(&mut hiter), Some(right));
            stair = fold_step(stair, *left);
        } else {
            state = (Some(left), take_back(&mut hiter));
            stair = fold_step(stair, *right);
        }
        proof {
            steps = steps + 1;
        }
    }
    stair.1
}

/// [`compute_rain_collected`] for a terrain that the caller gives away: the
/// columns are taken out of the vector itself.
pub fn compute_rain_collected2(height: Vec<i64>) -> (water: u64)
    ensures
        water == reported(height@),
        water == low_64_bits(climb(reordered(height@))),
        trapped(height@) <= u64::MAX ==> water == trapped(height@),
{
    let ghost terrain = height@;
    let ghost order = reordered(terrain);
    let ghost n = terrain.len() as int;
    proof {
        lemma_trapped_nonnegative(terrain);
        law_reordered_climb(terrain);
    }
    let mut hiter = height.into_iter();
    let first = take_front(&mut hiter);
    let last = take_back(&mut hiter);
    let mut state = (first, last);
    let mut stair = (i64::MIN, 0u64);
    let ghost mut steps: int = 0;
    while state.0.is_some() && state.1.is_some()
        invariant
            order == reordered(terrain),
            n == terrain.len(),
            0 <= steps,
            hiter.obeys_prophetic_iter_laws(),
            state.0 is Some && state.1 is Some ==> {
                let window = window_after(terrain, steps as nat);
                &&& steps < n - 1
                &&& window.1 - window.0 == n - 1 - steps
                &&& 0 <= window.0 < window.1 < n
                &&& state.0 == Some(terrain[window.0])
                &&& state.1 == Some(terrain[window.1])
                &&& hiter.remaining() == terrain.subrange(window.0 + 1, window.1)
            },
            !(state.0 is Some && state.1 is Some) ==> n == 0 || steps == n - 1,
            n > 0 ==> stair.0 == highest(order, 0, steps),
            n > 0 ==> stair.1 == low_64_bits(climb_between(order, 0, steps)),
            n == 0 ==> stair.1 == 0,
        decreases n - steps,
    {
        let left = state.0.unwrap();
        let right = state.1.unwrap();
        if left <= right {
            state = (take_front(&mut hiter), Some(right));
            stair = fold_step(stair, left);
        } else {
            state = (Some(left), take_back(&mut hiter));
            stair = fold_step(stair, right);
        }
        proof {
            steps = steps + 1;
        }
    }
    stair.1
}

/// [`compute_rain_collected2`] under its other name.
pub fn compute_rain_collected_v(height: Vec<i64>) -> (water: u64)
    ensures
        water == reported(height@),
        water == low_64_bits(climb(reordered(height@))),
        trapped(height@) <= u64::MAX ==> water == trapped(height@),
{
    compute_rain_collected2(height)
}

} // verus!
