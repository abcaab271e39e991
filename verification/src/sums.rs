//! Sums over a range of whole numbers.
use vstd::prelude::*;

verus! {

/// The sum of `f(k)` over `k` from `lo` to `hi`.
pub open spec fn sum_over(f: spec_fn(int) -> int, lo: int, hi: int) -> int
    decreases hi - lo + 1,
{
    if hi < lo {
        0
    } else {
        sum_over(f, lo, hi - 1) + f(hi)
    }
}

/// The sum is its first term and the sum of the others.
pub proof fn lemma_sum_first(f: spec_fn(int) -> int, lo: int, hi: int)
    requires
        lo <= hi,
    ensures
        sum_over(f, lo, hi) == f(lo) + sum_over(f, lo + 1, hi),
    decreases hi - lo,
{
    reveal_with_fuel(sum_over, 2);
    if lo < hi {
        lemma_sum_first(f, lo, hi - 1);
    }
}

/// A factor common to all terms can be taken out of the sum.
pub proof fn lemma_sum_scaled(
    f: spec_fn(int) -> int,
    g: spec_fn(int) -> int,
    factor: int,
    lo: int,
    hi: int,
)
    requires
        forall|k: int| lo <= k <= hi ==> #[trigger] g(k) == factor * f(k),
    ensures
        sum_over(g, lo, hi) == factor * sum_over(f, lo, hi),
    decreases hi - lo + 1,
{
    if lo <= hi {
        lemma_sum_scaled(f, g, factor, lo, hi - 1);
        assert(g(hi) == factor * f(hi));
        let rest = sum_over(f, lo, hi - 1);
        let last = f(hi);
        assert(factor * (rest + last) == factor * rest + factor * last) by (nonlinear_arith);
    } else {
        assert(factor * 0 == 0);
    }
}

/// A sum read from its other end: where `g(c - k)` is `f(k)`, the sum of
/// `g` from `c - hi` to `c - lo` is the sum of `f` from `lo` to `hi`.
pub proof fn lemma_sum_reflected(
    f: spec_fn(int) -> int,
    g: spec_fn(int) -> int,
    c: int,
    lo: int,
    hi: int,
)
    requires
        forall|k: int| lo <= k <= hi ==> #[trigger] f(k) == g(c - k),
    ensures
        sum_over(g, c - hi, c - lo) == sum_over(f, lo, hi),
    decreases hi - lo + 1,
{
    if lo <= hi {
        lemma_sum_reflected(f, g, c, lo + 1, hi);
        lemma_sum_first(f, lo, hi);
        assert(f(lo) == g(c - lo));
        assert(c - (lo + 1) == c - lo - 1);
    }
}

/// A sum with its indices moved: where `f(k)` is `g(k + d)`, the sum of
/// `f` from `lo` to `hi` is the sum of `g` from `lo + d` to `hi + d`.
pub proof fn lemma_sum_shifted(
    f: spec_fn(int) -> int,
    g: spec_fn(int) -> int,
    d: int,
    lo: int,
    hi: int,
)
    requires
        forall|k: int| lo <= k <= hi ==> #[trigger] f(k) == g(k + d),
    ensures
        sum_over(f, lo, hi) == sum_over(g, lo + d, hi + d),
    decreases hi - lo + 1,
{
    if lo <= hi {
        lemma_sum_shifted(f, g, d, lo, hi - 1);
        assert(f(hi) == g(hi + d));
        assert(hi - 1 + d == hi + d - 1);
    }
}

} // verus!
