//! The sum in Racah's formula for the 3j symbol: terms of alternating sign,
//! each one over a product of six factorials, brought to a common denominator.
use crate::exponents::{
    exponent_at, is_simplified, is_within, lemma_pointwise_max, lemma_pointwise_sum,
    lemma_simplified, pointwise_difference, pointwise_max, pointwise_sum, product_by, simplified,
    sum_fits,
};
use crate::factorial::FactorialTable;
use crate::factorization::PrimeFactorization;
use crate::legendre::legendre;
use crate::primality::{lemma_nth_prime_exists, lemma_prime_count_monotonic, nth_prime, prime_count};
use crate::primes::Primes;
use crate::products::{
    factorial_product, factorials_exponent, greatest, is_factorial_product,
    lemma_factorials_exponent_bound, lemma_total_of_six, total,
};
use crate::sums::sum_over;
use vstd::prelude::*;

verus! {

/// The limits of the series of a symbol: the index of a term is at least
/// zero and the two lower limits, and at most the three upper limits.
pub struct Series {
    pub alpha1: int,
    pub alpha2: int,
    pub beta1: int,
    pub beta2: int,
    pub beta3: int,
}

/// The greatest of three numbers.
pub open spec fn max_of(a: int, b: int, c: int) -> int {
    if a >= b && a >= c {
        a
    } else if b >= c {
        b
    } else {
        c
    }
}

/// The smallest of three numbers.
pub open spec fn min_of(a: int, b: int, c: int) -> int {
    if a <= b && a <= c {
        a
    } else if b <= c {
        b
    } else {
        c
    }
}

/// The sign of the term of index `k`: 1 for even and -1 for odd `k`.
pub open spec fn alternating_sign(k: int) -> int {
    if k % 2 == 0 {
        1
    } else {
        -1
    }
}

impl Series {
    /// The index of the first term.
    pub open spec fn first(self) -> int {
        max_of(self.alpha1, self.alpha2, 0)
    }

    /// The index of the last term.
    pub open spec fn last(self) -> int {
        min_of(self.beta1, self.beta2, self.beta3)
    }

    /// The number of terms.
    pub open spec fn count(self) -> nat {
        if self.last() >= self.first() {
            (self.last() - self.first() + 1) as nat
        } else {
            0
        }
    }

    /// The sum of the six numbers whose factorials stand under a term, which
    /// is the same for every term.
    pub open spec fn weight(self) -> int {
        self.beta1 + self.beta2 + self.beta3 - self.alpha1 - self.alpha2
    }

    /// The six numbers whose factorials stand under the term of index `k`.
    pub open spec fn term_arguments(self, k: int) -> Seq<u32> {
        seq![
            k as u32,
            (k - self.alpha1) as u32,
            (k - self.alpha2) as u32,
            (self.beta1 - k) as u32,
            (self.beta2 - k) as u32,
            (self.beta3 - k) as u32,
        ]
    }

    /// The exponent of `p` in the product of factorials under the term of
    /// index `k`.
    pub open spec fn term_exponent(self, k: int, p: int) -> nat {
        factorials_exponent(self.term_arguments(k), p)
    }

    /// The exponent of `p` in the least common multiple of the products
    /// under the terms up to the index `k`.
    pub open spec fn common_exponent_upto(self, k: int, p: int) -> nat
        decreases k - self.first() + 1,
    {
        if k < self.first() {
            0
        } else if self.term_exponent(k, p) >= self.common_exponent_upto(k - 1, p) {
            self.term_exponent(k, p)
        } else {
            self.common_exponent_upto(k - 1, p)
        }
    }

    /// The exponent of `p` in the common denominator of the series: the
    /// least common multiple of the products under its terms.
    pub open spec fn common_exponent(self, p: int) -> nat {
        self.common_exponent_upto(self.last(), p)
    }

    /// The exponent of `p` in the numerator of the term of index `k` over
    /// the common denominator.
    pub open spec fn numerator_exponent(self, k: int, p: int) -> nat {
        (self.common_exponent(p) - self.term_exponent(k, p)) as nat
    }

    /// The number of primes that are not above the weight of the series:
    /// no other prime divides a number of the series.
    pub open spec fn prime_bound(self) -> nat {
        prime_count(self.weight() + 1)
    }

    /// For each prime, by its index, its exponent in the numerator of the
    /// term of index `k`.
    pub open spec fn numerator_exponents(self, k: int) -> spec_fn(nat) -> nat {
        |i: nat| self.numerator_exponent(k, nth_prime(i))
    }

    /// The numerator of the term of index `k` over the common denominator,
    /// without its sign.
    pub open spec fn numerator_value(self, k: int) -> int {
        product_by(self.numerator_exponents(k), self.prime_bound())
    }

    /// The numerators of the terms over the common denominator, by the
    /// index of the term.
    pub open spec fn terms(self) -> spec_fn(int) -> int {
        |k: int| alternating_sign(k) * self.numerator_value(k)
    }

    /// The sum of the numerators of the terms over the common denominator.
    pub open spec fn sum(self) -> int {
        sum_over(self.terms(), self.first(), self.last())
    }

    /// Whether `f` is the numerator of the term of index `k` over the common
    /// denominator.
    pub open spec fn is_numerator(self, f: PrimeFactorization, k: int) -> bool {
        &&& f.sign == alternating_sign(k)
        &&& is_simplified(f@)
        &&& forall|i: nat| #[trigger]
            exponent_at(f@, i as int) == self.numerator_exponent(k, nth_prime(i))
    }

    /// Whether `f` is the common denominator of the series.
    pub open spec fn is_denominator(self, f: PrimeFactorization) -> bool {
        &&& f.sign == 1
        &&& forall|i: nat| #[trigger]
            exponent_at(f@, i as int) == self.common_exponent(nth_prime(i))
        &&& if self.count() == 0 {
            f@ == seq![0u16]
        } else {
            f@.len() == 0 || f@.last() != 0
        }
    }

    /// The six numbers under a term of the series are not negative and sum
    /// to the weight.
    pub proof fn lemma_term_arguments(self, k: int)
        requires
            self.first() <= k <= self.last(),
            self.weight() <= u32::MAX,
        ensures
            total(self.term_arguments(k)) == self.weight(),
            self.term_arguments(k)[0] == k,
            self.term_arguments(k)[1] == k - self.alpha1,
            self.term_arguments(k)[2] == k - self.alpha2,
            self.term_arguments(k)[3] == self.beta1 - k,
            self.term_arguments(k)[4] == self.beta2 - k,
            self.term_arguments(k)[5] == self.beta3 - k,
    {
        lemma_total_of_six(self.term_arguments(k));
    }

    /// No common exponent is above the weight of the series.
    pub proof fn lemma_common_exponent_bound(self, k: int, p: int)
        requires
            k <= self.last(),
            0 <= self.weight() <= u32::MAX,
        ensures
            self.common_exponent_upto(k, p) <= self.weight(),
        decreases k - self.first() + 1,
    {
        if k >= self.first() {
            self.lemma_common_exponent_bound(k - 1, p);
            self.lemma_term_arguments(k);
            lemma_factorials_exponent_bound(self.term_arguments(k), p);
        }
    }

    /// The common exponent is at least the exponent under each term.
    pub proof fn lemma_common_exponent(self, k: int, upto: int, p: int)
        requires
            self.first() <= k <= upto,
        ensures
            self.term_exponent(k, p) <= self.common_exponent_upto(upto, p),
        decreases upto - k,
    {
        if k < upto {
            self.lemma_common_exponent(k, upto - 1, p);
        }
    }
}

/// The exponents of the least common multiple of the first `n` of the
/// factorizations, and of 1 where `n` is zero.
pub open spec fn common_exponents(denominators: Seq<PrimeFactorization>, n: nat) -> Seq<u16>
    decreases n,
{
    if n == 0 {
        seq![0u16]
    } else if n == 1 {
        denominators[0]@
    } else {
        pointwise_max(common_exponents(denominators, (n - 1) as nat), denominators[n - 1]@)
    }
}

/// The product of the signs of the first `n` of the factorizations.
pub open spec fn common_sign(denominators: Seq<PrimeFactorization>, n: nat) -> int
    decreases n,
{
    if n == 0 {
        1
    } else if n == 1 {
        denominators[0].sign as int
    } else {
        common_sign(denominators, (n - 1) as nat) * denominators[n - 1].sign
    }
}

/// Whether `after` is `before` times `common` over `denominator`.
pub open spec fn is_rescaled(
    before: PrimeFactorization,
    after: PrimeFactorization,
    denominator: PrimeFactorization,
    common: PrimeFactorization,
) -> bool {
    &&& after.wf()
    &&& after.sign == before.sign * common.sign * denominator.sign
    &&& after@ == if before.sign == 0 {
        Seq::<u16>::empty()
    } else {
        simplified(pointwise_difference(pointwise_sum(before@, common@), denominator@))
    }
    &&& after.value() * denominator.value() == before.value() * common.value()
}

/// The exponents of the least common multiple are at least those of each of
/// the factorizations.
pub proof fn lemma_common_exponents(denominators: Seq<PrimeFactorization>, n: nat, k: int)
    requires
        0 <= k < n <= denominators.len(),
    ensures
        is_within(denominators[k]@, common_exponents(denominators, n)),
    decreases n,
{
    if n > 1 {
        let earlier = common_exponents(denominators, (n - 1) as nat);
        lemma_pointwise_max(earlier, denominators[n - 1]@);
        if k < n - 1 {
            lemma_common_exponents(denominators, (n - 1) as nat, k);
            assert forall|i: int| #[trigger]
                exponent_at(denominators[k]@, i) <= exponent_at(
                    common_exponents(denominators, n),
                    i,
                ) by {
                assert(exponent_at(denominators[k]@, i) <= exponent_at(earlier, i));
                assert(exponent_at(earlier, i) <= exponent_at(
                    pointwise_max(earlier, denominators[n - 1]@),
                    i,
                ));
            }
        }
    } else {
        assert forall|i: int| #[trigger]
            exponent_at(denominators[k]@, i) <= exponent_at(common_exponents(denominators, n), i) by {}
    }
}

/// The series with the given limits.
pub open spec fn series_of(beta1: i32, beta2: i32, beta3: i32, alpha1: i32, alpha2: i32) -> Series {
    Series {
        alpha1: alpha1 as int,
        alpha2: alpha2 as int,
        beta1: beta1 as int,
        beta2: beta2 as int,
        beta3: beta3 as int,
    }
}

/// The exponent of a prime in a product of factorials is at least its
/// exponent in the factorial of the greatest of the numbers.
pub proof fn lemma_factorials_exponent_greatest(arguments: Seq<u32>, p: int)
    ensures
        factorials_exponent(arguments, p) >= legendre(greatest(arguments), p),
    decreases arguments.len(),
{
    if arguments.len() > 0 {
        lemma_factorials_exponent_greatest(arguments.drop_last(), p);
    }
}

/// A product of factorials has no zero exponent at the end.
pub proof fn lemma_factorial_product_trimmed(f: PrimeFactorization, arguments: Seq<u32>)
    requires
        is_factorial_product(f, arguments),
    ensures
        f@.len() == 0 || f@.last() != 0,
{
    let count = f@.len();
    if count > 0 {
        let i = (count - 1) as nat;
        let p = nth_prime(i);
        let g = greatest(arguments);
        lemma_nth_prime_exists(i);
        if p > g {
            lemma_prime_count_monotonic(g + 1, p);
        }
        assert(exponent_at(f@, i as int) == factorials_exponent(arguments, p));
        lemma_factorials_exponent_greatest(arguments, p);
        vstd::arithmetic::div_mod::lemma_div_non_zero(g, p);
        assert(legendre(g, p) >= 1);
    }
}

/// The least common multiple of factorizations without a zero exponent at
/// the end has none either.
pub proof fn lemma_common_exponents_trimmed(denominators: Seq<PrimeFactorization>, n: nat)
    requires
        1 <= n <= denominators.len(),
        forall|k: int|
            0 <= k < n ==> (#[trigger] denominators[k])@.len() == 0 || denominators[k]@.last()
                != 0,
    ensures
        common_exponents(denominators, n).len() == 0 || common_exponents(denominators, n).last()
            != 0,
    decreases n,
{
    if n > 1 {
        lemma_common_exponents_trimmed(denominators, (n - 1) as nat);
        assert(denominators[n - 1]@.len() == 0 || denominators[n - 1]@.last() != 0);
    } else {
        assert(denominators[0]@.len() == 0 || denominators[0]@.last() != 0);
    }
}

/// The exponents of the least common multiple of the products under the
/// first `n` terms of a series are its common exponents up to the last of them.
pub proof fn lemma_series_common_exponents(
    series: Series,
    denominators: Seq<PrimeFactorization>,
    n: nat,
    i: nat,
)
    requires
        1 <= n <= denominators.len(),
        forall|m: int|
            0 <= m < n ==> is_factorial_product(
                #[trigger] denominators[m],
                series.term_arguments(series.first() + m),
            ),
    ensures
        exponent_at(common_exponents(denominators, n), i as int) == series.common_exponent_upto(
            series.first() + n - 1,
            nth_prime(i),
        ),
    decreases n,
{
    let p = nth_prime(i);
    assert(is_factorial_product(
        denominators[n - 1],
        series.term_arguments(series.first() + (n - 1)),
    ));
    assert(exponent_at(denominators[n - 1]@, i as int) == series.term_exponent(
        series.first() + n - 1,
        p,
    ));
    if n > 1 {
        lemma_series_common_exponents(series, denominators, (n - 1) as nat, i);
        lemma_pointwise_max(common_exponents(denominators, (n - 1) as nat), denominators[n - 1]@);
    } else {
        assert(series.common_exponent_upto(series.first() - 1, p) == 0);
    }
}

/// The greatest of three numbers.
pub fn max(a: i32, b: i32, c: i32) -> (greatest: i32)
    ensures
        greatest == max_of(a as int, b as int, c as int),
{
    if a >= b && a >= c {
        a
    } else if b >= c {
        b
    } else {
        c
    }
}

/// The smallest of three numbers.
pub fn min(a: i32, b: i32, c: i32) -> (smallest: i32)
    ensures
        smallest == min_of(a as int, b as int, c as int),
{
    if a <= b && a <= c {
        a
    } else if b <= c {
        b
    } else {
        c
    }
}

/// Brings fractions to their common denominator, which is the least common
/// multiple of their denominators: each numerator is multiplied by it and
/// divided by its own denominator. Gives the common denominator.
pub fn common_denominator(
    numerators: &mut Vec<PrimeFactorization>,
    denominators: &Vec<PrimeFactorization>,
) -> (denominator: PrimeFactorization)
    requires
        old(numerators)@.len() == denominators@.len(),
        forall|k: int| 0 <= k < denominators@.len() ==> (#[trigger] old(numerators)@[k]).wf(),
        forall|k: int|
            0 <= k < denominators@.len() ==> (#[trigger] denominators@[k]).wf()
                && denominators@[k].sign != 0,
        forall|k: int|
            0 <= k < denominators@.len() ==> sum_fits(
                (#[trigger] old(numerators)@[k])@,
                common_exponents(denominators@, denominators@.len()),
            ),
    ensures
        denominator.wf(),
        denominator.sign == common_sign(denominators@, denominators@.len()),
        denominator@ == common_exponents(denominators@, denominators@.len()),
        final(numerators)@.len() == denominators@.len(),
        forall|k: int|
            0 <= k < denominators@.len() ==> is_rescaled(
                old(numerators)@[k],
                #[trigger] final(numerators)@[k],
                denominators@[k],
                denominator,
            ),
{
    if denominators.len() == 0 {
        return PrimeFactorization::one();
    }
    let mut denominator = denominators[0].clone();
    let mut i: usize = 1;
    while i < denominators.len()
        invariant
            1 <= i <= denominators@.len(),
            forall|k: int|
                0 <= k < denominators@.len() ==> (#[trigger] denominators@[k]).wf()
                    && denominators@[k].sign != 0,
            denominator.wf(),
            denominator.sign != 0,
            denominator.sign == common_sign(denominators@, i as nat),
            denominator@ == common_exponents(denominators@, i as nat),
        decreases denominators@.len() - i,
    {
        assert(denominators@[i as int].wf());
        denominator.least_common_multiple(&denominators[i]);
        proof {
            let s = common_sign(denominators@, i as nat);
            let t = denominators@[i as int].sign as int;
            assert(s * t != 0) by (nonlinear_arith)
                requires
                    s != 0,
                    t != 0,
            ;
        }
        i += 1;
    }
    let mut k: usize = 0;
    while k < numerators.len()
        invariant
            k <= numerators@.len(),
            numerators@.len() == denominators@.len(),
            old(numerators)@.len() == denominators@.len(),
            forall|j: int|
                0 <= j < denominators@.len() ==> (#[trigger] denominators@[j]).wf()
                    && denominators@[j].sign != 0,
            forall|j: int| 0 <= j < denominators@.len() ==> (#[trigger] old(numerators)@[j]).wf(),
            forall|j: int|
                0 <= j < denominators@.len() ==> sum_fits(
                    (#[trigger] old(numerators)@[j])@,
                    common_exponents(denominators@, denominators@.len()),
                ),
            denominator.wf(),
            denominator.sign != 0,
            denominator@ == common_exponents(denominators@, denominators@.len()),
            forall|j: int|
                0 <= j < k ==> is_rescaled(
                    old(numerators)@[j],
                    #[trigger] numerators@[j],
                    denominators@[j],
                    denominator,
                ),
            forall|j: int|
                k <= j < numerators@.len() ==> #[trigger] numerators@[j] == old(numerators)@[j],
        decreases numerators@.len() - k,
    {
        let ghost before = numerators@[k as int];
        assert(before == old(numerators)@[k as int]);
        assert(before.wf());
        assert(sum_fits(before@, denominator@));
        assert(denominators@[k as int].wf());
        let mut numerator = numerators[k].clone();
        numerator.mul_assign(&denominator);
        proof {
            lemma_common_exponents(denominators@, denominators@.len(), k as int);
            if numerator.sign != 0 {
                lemma_pointwise_sum(before@, denominator@);
                assert forall|i: int| #[trigger]
                    exponent_at(denominators@[k as int]@, i) <= exponent_at(numerator@, i) by {
                    assert(exponent_at(denominators@[k as int]@, i) <= exponent_at(
                        denominator@,
                        i,
                    ));
                    assert(exponent_at(numerator@, i) == exponent_at(before@, i) + exponent_at(
                        denominator@,
                        i,
                    ));
                }
            }
        }
        let ghost scaled = numerator;
        let quotient = numerator.div_assign(&denominators[k]);
        proof {
            assert(quotient.is_ok());
            let s = before.sign as int;
            let c = denominator.sign as int;
            let d = denominators@[k as int].sign as int;
            assert((s * c) * d == s * c * d);
            assert(s == 0 ==> s * c == 0 && (s * c) * d == 0) by (nonlinear_arith);
            assert(s != 0 ==> s * c != 0) by (nonlinear_arith)
                requires
                    c != 0,
            ;
        }
        numerators[k] = numerator;
        k += 1;
    }
    denominator
}

/// The series of a symbol with the given limits, brought to its common
/// denominator: the numerators of the terms, first to last, and the denominator.
pub fn compute_3j_series(
    beta1: i32,
    beta2: i32,
    beta3: i32,
    alpha1: i32,
    alpha2: i32,
    table: &FactorialTable,
    primes: &mut Primes,
) -> (series: (Vec<PrimeFactorization>, PrimeFactorization))
    requires
        table.wf(),
        old(primes).wf(),
        series_of(beta1, beta2, beta3, alpha1, alpha2).weight() <= u16::MAX,
    ensures
        final(primes).wf(),
        final(primes).known() >= old(primes).known(),
        series.0@.len() == series_of(beta1, beta2, beta3, alpha1, alpha2).count(),
        forall|n: int|
            0 <= n < series.0@.len() ==> series_of(beta1, beta2, beta3, alpha1, alpha2).is_numerator(
                #[trigger] series.0@[n],
                series_of(beta1, beta2, beta3, alpha1, alpha2).first() + n,
            ),
        series_of(beta1, beta2, beta3, alpha1, alpha2).is_denominator(series.1),
{
    let ghost limits = series_of(beta1, beta2, beta3, alpha1, alpha2);
    let first = max(alpha1, alpha2, 0) as i64;
    let last = min(beta1, beta2, beta3) as i64;
    let mut numerators: Vec<PrimeFactorization> = Vec::new();
    let mut denominators: Vec<PrimeFactorization> = Vec::new();
    let mut k = first;
    while k <= last
        invariant
            table.wf(),
            primes.wf(),
            primes.known() >= old(primes).known(),
            limits == series_of(beta1, beta2, beta3, alpha1, alpha2),
            limits.weight() <= u16::MAX,
            first == limits.first(),
            last == limits.last(),
            first <= k,
            k <= last + 1 || k == first,
            numerators@.len() == denominators@.len(),
            numerators@.len() == k - first,
            forall|n: int|
                0 <= n < numerators@.len() ==> (#[trigger] numerators@[n]).sign
                    == alternating_sign(first + n) && numerators@[n]@ == seq![0u16],
            forall|n: int|
                0 <= n < denominators@.len() ==> is_factorial_product(
                    #[trigger] denominators@[n],
                    limits.term_arguments(first + n),
                ),
        decreases last + 1 - k,
    {
        let numerator = if k % 2 == 0 {
            PrimeFactorization::one()
        } else {
            PrimeFactorization::minus_one()
        };
        let mut arguments: Vec<u32> = Vec::new();
        arguments.push(k as u32);
        arguments.push((k - alpha1 as i64) as u32);
        arguments.push((k - alpha2 as i64) as u32);
        arguments.push((beta1 as i64 - k) as u32);
        arguments.push((beta2 as i64 - k) as u32);
        arguments.push((beta3 as i64 - k) as u32);
        proof {
            assert(arguments@ =~= limits.term_arguments(k as int));
            limits.lemma_term_arguments(k as int);
        }
        let denominator = factorial_product(&arguments, table, primes);
        numerators.push(numerator);
        denominators.push(denominator);
        k += 1;
    }
    proof {
        let n = denominators@.len();
        assert forall|j: int| 0 <= j < n implies (#[trigger] denominators@[j]).wf()
            && denominators@[j].sign != 0 by {
            assert(is_factorial_product(denominators@[j], limits.term_arguments(first + j)));
        }
        assert forall|j: int| 0 <= j < n implies sum_fits(
            (#[trigger] numerators@[j])@,
            common_exponents(denominators@, n),
        ) by {
            assert(numerators@[j]@ == seq![0u16]);
            assert forall|i: int| #[trigger]
                exponent_at(numerators@[j]@, i) + exponent_at(
                    common_exponents(denominators@, n),
                    i,
                ) <= u16::MAX by {}
        }
        assert forall|j: int| 0 <= j < n implies (#[trigger] numerators@[j]).wf() by {}
    }
    let ghost units = numerators@;
    let denominator = common_denominator(&mut numerators, &denominators);
    proof {
        let n = denominators@.len();
        if n > 0 {
            assert forall|j: int| 0 <= j < n implies (#[trigger] denominators@[j])@.len() == 0
                || denominators@[j]@.last() != 0 by {
                lemma_factorial_product_trimmed(
                    denominators@[j],
                    limits.term_arguments(first + j),
                );
            }
            lemma_common_exponents_trimmed(denominators@, n);
            assert(common_sign(denominators@, n) == 1) by {
                lemma_common_sign(denominators@, n);
            }
            assert forall|i: nat| #[trigger]
                exponent_at(denominator@, i as int) == limits.common_exponent(nth_prime(i)) by {
                lemma_series_common_exponents(limits, denominators@, n, i);
            }
        } else {
            assert forall|i: nat| #[trigger]
                exponent_at(denominator@, i as int) == limits.common_exponent(nth_prime(i)) by {}
        }
        assert forall|j: int| 0 <= j < n implies limits.is_numerator(
            #[trigger] numerators@[j],
            limits.first() + j,
        ) by {
            let before = units[j];
            let after = numerators@[j];
            let under = denominators@[j];
            assert(is_rescaled(before, after, under, denominator));
            assert(is_factorial_product(under, limits.term_arguments(first + j)));
            assert(before@ == seq![0u16]);
            let scaled = pointwise_sum(before@, denominator@);
            let difference = pointwise_difference(scaled, under@);
            lemma_simplified(difference);
            lemma_common_exponents(denominators@, n, j);
            assert forall|i: nat| #[trigger]
                exponent_at(after@, i as int) == limits.numerator_exponent(
                    limits.first() + j,
                    nth_prime(i),
                ) by {
                assert(exponent_at(after@, i as int) == exponent_at(difference, i as int));
                assert(exponent_at(denominator@, i as int) == limits.common_exponent(
                    nth_prime(i),
                ));
                assert(exponent_at(under@, i as int) == limits.term_exponent(
                    limits.first() + j,
                    nth_prime(i),
                ));
                assert(exponent_at(under@, i as int) <= exponent_at(denominator@, i as int));
                assert(exponent_at(before@, i as int) == 0);
                assert(exponent_at(scaled, i as int) == exponent_at(denominator@, i as int));
            }
            assert(after.sign == before.sign * 1 * 1);
        }
    }
    (numerators, denominator)
}

/// The product of signs that are all 1 is 1.
pub proof fn lemma_common_sign(denominators: Seq<PrimeFactorization>, n: nat)
    requires
        n <= denominators.len(),
        forall|k: int| 0 <= k < n ==> (#[trigger] denominators[k]).sign == 1,
    ensures
        common_sign(denominators, n) == 1,
    decreases n,
{
    if n > 1 {
        lemma_common_sign(denominators, (n - 1) as nat);
        assert(denominators[n - 1].sign == 1);
    } else if n == 1 {
        assert(denominators[0].sign == 1);
    }
}

} // verus!
