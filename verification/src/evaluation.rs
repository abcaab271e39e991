//! What the evaluation of a symbol stands for, and what does not depend on
//! the cache.
use crate::cache::CacheEntry;
use crate::exponents::{
    exponent_at, exponents_of, lemma_product_by_agree, lemma_product_by_beyond,
    lemma_product_upto_by, lemma_simplified_unique,
};
use crate::factorization::PrimeFactorization;
use crate::primality::{
    lemma_nth_prime_exists, lemma_nth_prime_increasing, lemma_prime_count_above_prime, nth_prime,
};
use crate::rational::Rational;
use crate::series::Series;
use crate::sums::{lemma_sum_shifted, sum_over};
use crate::symbol::{is_reduced_power, Symbol};
use crate::symmetry::{is_evaluated, lemma_common_exponent_attained, lemma_term_exponent};
use crate::wigner_3j::{
    is_computed_for, is_evaluation_of, is_series_of, Wigner3j, Wigner3jError,
};
use vstd::prelude::*;

verus! {

/// The sum of the integers that the factorizations stand for.
pub open spec fn sum_of_values(series: Seq<PrimeFactorization>) -> int {
    sum_over(|n: int| series[n].value(), 0, series.len() - 1)
}

/// A prime above the weight of a series divides none of its numbers.
pub proof fn lemma_exponents_above_weight(limits: Series, k: int, i: nat)
    requires
        0 <= limits.weight() <= u32::MAX,
        limits.first() <= k <= limits.last(),
        i >= limits.prime_bound(),
    ensures
        limits.term_exponent(k, nth_prime(i)) == 0,
        limits.common_exponent(nth_prime(i)) == 0,
        limits.numerator_exponent(k, nth_prime(i)) == 0,
{
    let p = nth_prime(i);
    let bound = limits.prime_bound();
    lemma_nth_prime_exists(i);
    lemma_nth_prime_exists(bound);
    if nth_prime(bound) <= limits.weight() {
        lemma_prime_count_above_prime(nth_prime(bound), limits.weight() + 1);
    }
    if i > bound {
        lemma_nth_prime_increasing(bound, i);
    }
    assert(p > limits.weight());
    let at = lemma_common_exponent_attained(limits, limits.last(), p);
    limits.lemma_term_arguments(k);
    limits.lemma_term_arguments(at);
    lemma_term_exponent(limits, k, p);
    lemma_term_exponent(limits, at, p);
}

/// The numerator of a term stands for the number that the series has for
/// it, with the sign of the term.
pub proof fn lemma_numerator_value(limits: Series, f: PrimeFactorization, k: int)
    requires
        limits.is_numerator(f, k),
        limits.first() <= k <= limits.last(),
        0 <= limits.weight() <= u32::MAX,
    ensures
        f.value() == limits.terms()(k),
{
    let bound = limits.prime_bound();
    let len = f@.len();
    let held = exponents_of(f@);
    let wanted = limits.numerator_exponents(k);
    let most = if bound >= len {
        bound
    } else {
        len
    };
    lemma_product_upto_by(f@, len);
    assert forall|i: nat| i < most implies #[trigger] held(i) == wanted(i) by {
        assert(exponent_at(f@, i as int) == limits.numerator_exponent(k, nth_prime(i)));
    }
    lemma_product_by_agree(held, wanted, most);
    lemma_product_by_agree(held, wanted, len);
    assert forall|i: nat| bound <= i < most implies #[trigger] wanted(i) == 0 by {
        lemma_exponents_above_weight(limits, k, i);
    }
    lemma_product_by_beyond(wanted, bound, most);
    assert forall|i: nat| len <= i < most implies #[trigger] held(i) == 0 by {}
    lemma_product_by_beyond(held, len, most);
}

/// The numerators of the series of a symbol sum to the sum of its series.
pub proof fn lemma_series_sum(series: Seq<PrimeFactorization>, symbol: Symbol)
    requires
        is_series_of(series, symbol),
        0 <= symbol.series().weight() <= u32::MAX,
    ensures
        sum_of_values(series) == symbol.series().sum(),
{
    let limits = symbol.series();
    let values = |n: int| series[n].value();
    let first = limits.first();
    assert forall|n: int| 0 <= n <= series.len() - 1 implies #[trigger] values(n)
        == limits.terms()(n + first) by {
        assert(limits.is_numerator(series[n], first + n));
        lemma_numerator_value(limits, series[n], first + n);
    }
    lemma_sum_shifted(values, limits.terms(), first, 0, series.len() - 1);
    if limits.count() == 0 {
        assert(sum_over(limits.terms(), first, limits.last()) == 0);
        assert(sum_over(limits.terms(), 0 + first, -1 + first) == 0);
    }
}

/// What a computed evaluation gives stands for the symbol: the numerators
/// of the series, with the sign, sum to the sum of the symbol's series with
/// its sign.
pub proof fn lemma_computed_value(
    sign: i8,
    series: Seq<PrimeFactorization>,
    root: Rational,
    symbol: Symbol,
)
    requires
        is_evaluated(symbol),
        sign == symbol.sign(),
        is_series_of(series, symbol.canonical()),
        symbol.canonical().is_root(root),
    ensures
        sign * sum_of_values(series) == symbol.signed_sum(),
        is_reduced_power(root, |i: nat| symbol.canonical().root_exponent(nth_prime(i))),
{
    crate::symmetry::lemma_canonical_form(symbol);
    lemma_series_sum(series, symbol.canonical());
}

/// Where the value of one symbol is the value of another times a factor, as
/// it is for the symbols that a symmetry relates, the evaluations of the two
/// show it: the sums of the numerators with their signs differ by the factor,
/// and the numbers under the roots are the same.
pub proof fn lemma_computed_multiple(
    symbol: Symbol,
    image: Symbol,
    factor: int,
    sign: i8,
    series: Seq<PrimeFactorization>,
    root: Rational,
    image_sign: i8,
    image_series: Seq<PrimeFactorization>,
    image_root: Rational,
)
    requires
        is_evaluated(symbol),
        is_evaluated(image),
        crate::symmetry::is_multiple(symbol, image, factor),
        is_computed_for(symbol, sign, series, root),
        is_computed_for(image, image_sign, image_series, image_root),
    ensures
        image_sign * sum_of_values(image_series) == factor * (sign * sum_of_values(series)),
        image_root.numerator@ == root.numerator@,
        image_root.denominator@ == root.denominator@,
        image_root.numerator.sign == root.numerator.sign,
        image_root.denominator.sign == root.denominator.sign,
{
    lemma_computed_value(sign, series, root, symbol);
    lemma_computed_value(image_sign, image_series, image_root, image);
    let power = |i: nat| symbol.canonical().root_exponent(nth_prime(i));
    let image_power = |i: nat| image.canonical().root_exponent(nth_prime(i));
    assert forall|i: nat| #[trigger] image_power(i) == power(i) by {
        assert(image.canonical().root_exponent(nth_prime(i)) == symbol.canonical().root_exponent(
            nth_prime(i),
        ));
    }
    assert(is_reduced_power(image_root, power)) by {
        assert forall|i: nat| #[trigger]
            exponent_at(image_root.numerator@, i as int) == if power(i) >= 0 {
                power(i)
            } else {
                0
            } by {
            assert(image_power(i) == power(i));
        }
        assert forall|i: nat| #[trigger]
            exponent_at(image_root.denominator@, i as int) == if power(i) <= 0 {
                -power(i)
            } else {
                0
            } by {
            assert(image_power(i) == power(i));
        }
    }
    lemma_reduced_power_unique(root, image_root, power);
}

/// No two factorizations are the numerator of the same term.
pub proof fn lemma_numerator_unique(
    limits: Series,
    f: PrimeFactorization,
    g: PrimeFactorization,
    k: int,
)
    requires
        limits.is_numerator(f, k),
        limits.is_numerator(g, k),
    ensures
        f.sign == g.sign,
        f@ == g@,
{
    assert forall|i: int| exponent_at(f@, i) == exponent_at(g@, i) by {
        if i >= 0 {
            assert(exponent_at(f@, (i as nat) as int) == limits.numerator_exponent(
                k,
                nth_prime(i as nat),
            ));
            assert(exponent_at(g@, (i as nat) as int) == limits.numerator_exponent(
                k,
                nth_prime(i as nat),
            ));
        }
    }
    lemma_simplified_unique(f@, g@);
}

/// No two rationals in lowest terms hold the same powers of the primes.
pub proof fn lemma_reduced_power_unique(r: Rational, s: Rational, power: spec_fn(nat) -> int)
    requires
        is_reduced_power(r, power),
        is_reduced_power(s, power),
    ensures
        r.numerator.sign == s.numerator.sign,
        r.numerator@ == s.numerator@,
        r.denominator.sign == s.denominator.sign,
        r.denominator@ == s.denominator@,
{
    assert forall|i: int| exponent_at(r.numerator@, i) == exponent_at(s.numerator@, i) by {
        if i >= 0 {
            let n = i as nat;
            assert(exponent_at(r.numerator@, n as int) == exponent_at(s.numerator@, n as int));
        }
    }
    assert forall|i: int| exponent_at(r.denominator@, i) == exponent_at(s.denominator@, i) by {
        if i >= 0 {
            let n = i as nat;
            assert(exponent_at(r.denominator@, n as int) == exponent_at(
                s.denominator@,
                n as int,
            ));
        }
    }
    lemma_simplified_unique(r.numerator@, s.numerator@);
    lemma_simplified_unique(r.denominator@, s.denominator@);
}

/// What is computed for a symbol does not depend on the cache: two
/// computed evaluations of a symbol, whatever the cache held, give the same
/// sign, the same key, the same numerators and the same number under the root.
pub proof fn lemma_computed_is_determined(
    one: Wigner3j,
    other: Wigner3j,
    symbol: Symbol,
    before_one: Seq<CacheEntry>,
    after_one: Seq<CacheEntry>,
    before_other: Seq<CacheEntry>,
    after_other: Seq<CacheEntry>,
)
    requires
        is_evaluation_of(Ok(one), symbol, before_one, after_one),
        is_evaluation_of(Ok(other), symbol, before_other, after_other),
        one is Computed,
        other is Computed,
    ensures
        one->Computed_sign == other->Computed_sign,
        one->Computed_key == other->Computed_key,
        one->Computed_series@.len() == other->Computed_series@.len(),
        forall|n: int|
            0 <= n < one->Computed_series@.len() ==> (#[trigger] one->Computed_series@[n]).sign
                == other->Computed_series@[n].sign && one->Computed_series@[n]@
                == other->Computed_series@[n]@,
        one->Computed_root.numerator.sign == other->Computed_root.numerator.sign,
        one->Computed_root.numerator@ == other->Computed_root.numerator@,
        one->Computed_root.denominator.sign == other->Computed_root.denominator.sign,
        one->Computed_root.denominator@ == other->Computed_root.denominator@,
{
    let canonical = symbol.canonical();
    let limits = canonical.series();
    let a = one->Computed_series@;
    let b = other->Computed_series@;
    assert forall|n: int| 0 <= n < a.len() implies (#[trigger] a[n]).sign == b[n].sign && a[n]@
        == b[n]@ by {
        assert(limits.is_numerator(a[n], limits.first() + n));
        assert(limits.is_numerator(b[n], limits.first() + n));
        lemma_numerator_unique(limits, a[n], b[n], limits.first() + n);
    }
    lemma_reduced_power_unique(
        one->Computed_root,
        other->Computed_root,
        |i: nat| canonical.root_exponent(nth_prime(i)),
    );
}

/// With an empty cache, as it is after it was cleared, no magnitude comes
/// from the cache: the evaluation gives what it would compute.
pub proof fn lemma_evaluation_with_empty_cache(
    result: Result<Wigner3j, Wigner3jError>,
    symbol: Symbol,
    after: Seq<CacheEntry>,
)
    requires
        is_evaluation_of(result, symbol, Seq::<CacheEntry>::empty(), after),
    ensures
        !(result matches Ok(Wigner3j::Cached { .. })),
        after == Seq::<CacheEntry>::empty(),
{
}

} // verus!
