//! Finite sums over a range of integers, and the few facts about them
//! that the rest of the crate needs.

use vstd::prelude::*;

verus! {

/// The sum of `f(i)` over `lo <= i < hi`; zero when the range is empty.
pub open spec fn sum_over(f: spec_fn(int) -> int, lo: int, hi: int) -> int
    decreases hi - lo,
{
    if hi <= lo {
        0
    } else {
        sum_over(f, lo, hi - 1) + f(hi - 1)
    }
}

/// A sum can be taken apart at its first term as well as at its last.
pub proof fn lemma_sum_peel_first(f: spec_fn(int) -> int, lo: int, hi: int)
    requires
        lo < hi,
    ensures
        sum_over(f, lo, hi) == f(lo) + sum_over(f, lo + 1, hi),
    decreases hi - lo,
{
    if lo + 1 < hi {
        lemma_sum_peel_first(f, lo, hi - 1);
    } else {
        assert(sum_over(f, lo, hi - 1) == 0);
        assert(sum_over(f, lo + 1, hi) == 0);
    }
}

/// A sum over a range is the sum over its two parts.
pub proof fn lemma_sum_split(f: spec_fn(int) -> int, lo: int, mid: int, hi: int)
    requires
        lo <= mid <= hi,
    ensures
        sum_over(f, lo, hi) == sum_over(f, lo, mid) + sum_over(f, mid, hi),
    decreases hi - mid,
{
    if mid < hi {
        lemma_sum_split(f, lo, mid, hi - 1);
    }
}

/// Two functions that agree on a range have the same sum over it.
pub proof fn lemma_sum_pointwise(f: spec_fn(int) -> int, g: spec_fn(int) -> int, lo: int, hi: int)
    requires
        forall|i: int| lo <= i < hi ==> #[trigger] f(i) == g(i),
    ensures
        sum_over(f, lo, hi) == sum_over(g, lo, hi),
    decreases hi - lo,
{
    if lo < hi {
        lemma_sum_pointwise(f, g, lo, hi - 1);
        assert(f(hi - 1) == g(hi - 1));
    }
}

/// A sum of terms that all lie between zero and `bound` lies between zero
/// and `bound` times the number of terms.
pub proof fn lemma_sum_bounded(f: spec_fn(int) -> int, lo: int, hi: int, bound: int)
    requires
        lo <= hi,
        forall|i: int| lo <= i < hi ==> 0 <= #[trigger] f(i) <= bound,
    ensures
        0 <= sum_over(f, lo, hi) <= (hi - lo) * bound,
    decreases hi - lo,
{
    if lo < hi {
        lemma_sum_bounded(f, lo, hi - 1, bound);
        assert(0 <= f(hi - 1) <= bound);
        assert((hi - lo) * bound == (hi - 1 - lo) * bound + bound) by (nonlinear_arith);
    } else {
        assert((hi - lo) * bound == 0) by (nonlinear_arith)
            requires
                hi - lo == 0,
        ;
    }
}

/// Reading a range from its other end does not change the sum: if
/// `g(i) == f(n - 1 - i)` for every `i` below `n`, both sum to the same.
pub proof fn lemma_sum_mirror(f: spec_fn(int) -> int, g: spec_fn(int) -> int, n: int)
    requires
        0 <= n,
        forall|i: int| 0 <= i < n ==> #[trigger] g(i) == f(n - 1 - i),
    ensures
        sum_over(g, 0, n) == sum_over(f, 0, n),
{
    lemma_sum_mirror_range(f, g, n, 0);
}

/// The inductive form of [`lemma_sum_mirror`]: the last `n - k` terms of `g`
/// are the first `n - k` terms of `f`.
proof fn lemma_sum_mirror_range(f: spec_fn(int) -> int, g: spec_fn(int) -> int, n: int, k: int)
    requires
        0 <= k <= n,
        forall|i: int| 0 <= i < n ==> #[trigger] g(i) == f(n - 1 - i),
    ensures
        sum_over(g, k, n) == sum_over(f, 0, n - k),
    decreases n - k,
{
    if k < n {
        lemma_sum_mirror_range(f, g, n, k + 1);
        lemma_sum_peel_first(g, k, n);
        assert(g(k) == f(n - 1 - k));
    }
}

/// Moving a range along does not change the sum: if `g(i) == f(i + by)` on
/// the range, `g` sums over it to what `f` sums to over the moved range.
pub proof fn lemma_sum_shift(
    f: spec_fn(int) -> int,
    g: spec_fn(int) -> int,
    lo: int,
    hi: int,
    by: int,
)
    requires
        forall|i: int| lo <= i < hi ==> #[trigger] g(i) == f(i + by),
    ensures
        sum_over(g, lo, hi) == sum_over(f, lo + by, hi + by),
    decreases hi - lo,
{
    if lo < hi {
        lemma_sum_shift(f, g, lo, hi - 1, by);
        assert(g(hi - 1) == f(hi - 1 + by));
    }
}

} // verus!
