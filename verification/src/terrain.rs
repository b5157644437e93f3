//! Terrains made of random elevations.

use vstd::prelude::*;

verus! {

/// The remainder that is left of `raw` when it is divided by `size` towards
/// zero: it has the sign of `raw`, and is nearer to zero than `size`.
pub open spec fn remainder(raw: int, size: int) -> int {
    if raw >= 0 {
        raw % size
    } else {
        -((-raw) % size)
    }
}

/// Draws a 64-bit integer from the random generator of the calling thread,
/// by `rand::random::<i64>()`. Nothing is claimed of the value drawn: every
/// call may return any `i64`.
#[verifier::external_body]
fn draw() -> i64 {
    rand::random::<i64>()
}

/// The elevation that a drawn integer `raw` stands for in a terrain of
/// `size` columns: its remainder by `size`.
pub fn elevation_from(raw: i64, size: i64) -> (elevation: i64)
    requires
        size > 0,
    ensures
        elevation == remainder(raw as int, size as int),
        -size < elevation < size,
{
    raw % size
}

/// A terrain of `size` columns of random elevations, each strictly between
/// `-size` and `size`; an empty one if `size` is not positive.
pub fn random_terrain(size: i64) -> (terrain: Vec<i64>)
    ensures
        terrain@.len() == if size > 0 { size as int } else { 0 },
        forall|i: int| 0 <= i < terrain@.len() ==> -size < #[trigger] terrain@[i] < size,
{
    let mut terrain: Vec<i64> = Vec::new();
    let mut made: i64 = 0;
    while made < size
        invariant
            0 <= made,
            made <= size || made == 0,
            terrain@.len() == made,
            forall|i: int| 0 <= i < terrain@.len() ==> -size < #[trigger] terrain@[i] < size,
        decreases size - made,
    {
        terrain.push(elevation_from(draw(), size));
        made += 1;
    }
    terrain
}

} // verus!
