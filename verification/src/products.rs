//! Products of factorials, as the series of a symbol and its factors in
//! front need them.
use crate::exponents::{exponent_at, lemma_pointwise_sum};
use crate::factorial::{factorial, lemma_factorial_fits, lemma_factorial_value, FactorialTable};
use crate::factorization::PrimeFactorization;
use crate::legendre::{legendre, lemma_legendre_bound};
use crate::primality::{factorial_of, lemma_prime_count_monotonic, nth_prime, prime_count};
use crate::primes::Primes;
use vstd::prelude::*;

verus! {

/// The sum of the numbers.
pub open spec fn total(arguments: Seq<u32>) -> int
    decreases arguments.len(),
{
    if arguments.len() == 0 {
        0
    } else {
        total(arguments.drop_last()) + arguments.last()
    }
}

/// The exponent of `p` in the product of the factorials of the numbers.
pub open spec fn factorials_exponent(arguments: Seq<u32>, p: int) -> nat
    decreases arguments.len(),
{
    if arguments.len() == 0 {
        0
    } else {
        factorials_exponent(arguments.drop_last(), p) + legendre(arguments.last() as int, p)
    }
}

/// The product of the factorials of the numbers.
pub open spec fn factorials_value(arguments: Seq<u32>) -> int
    decreases arguments.len(),
{
    if arguments.len() == 0 {
        1
    } else {
        factorials_value(arguments.drop_last()) * factorial_of(arguments.last() as nat)
    }
}

/// The greatest of the numbers, or zero where there is none.
pub open spec fn greatest(arguments: Seq<u32>) -> int
    decreases arguments.len(),
{
    if arguments.len() == 0 {
        0
    } else if arguments.last() >= greatest(arguments.drop_last()) {
        arguments.last() as int
    } else {
        greatest(arguments.drop_last())
    }
}

/// Whether `f` is the product of the factorials of the numbers: positive,
/// with an exponent for each prime up to the greatest of them, which is the
/// sum of the exponents that Legendre's formula gives.
pub open spec fn is_factorial_product(f: PrimeFactorization, arguments: Seq<u32>) -> bool {
    &&& f.sign == 1
    &&& f@.len() == prime_count(greatest(arguments) + 1)
    &&& forall|i: nat| #[trigger]
        exponent_at(f@, i as int) == factorials_exponent(arguments, nth_prime(i))
}

/// The sum of three numbers.
pub proof fn lemma_total_of_three(arguments: Seq<u32>)
    requires
        arguments.len() == 3,
    ensures
        total(arguments) == arguments[0] + arguments[1] + arguments[2],
{
    let a = arguments;
    reveal_with_fuel(total, 4);
    assert(a.drop_last().drop_last().drop_last() =~= Seq::<u32>::empty());
}

/// The sum of six numbers.
pub proof fn lemma_total_of_six(arguments: Seq<u32>)
    requires
        arguments.len() == 6,
    ensures
        total(arguments) == arguments[0] + arguments[1] + arguments[2] + arguments[3]
            + arguments[4] + arguments[5],
{
    let a = arguments;
    reveal_with_fuel(total, 7);
    assert(a.drop_last().drop_last().drop_last().drop_last().drop_last().drop_last()
        =~= Seq::<u32>::empty());
}

/// The exponent of a prime in the product of three factorials is the sum
/// of its exponents in the three.
pub proof fn lemma_factorials_exponent_of_three(arguments: Seq<u32>, p: int)
    requires
        arguments.len() == 3,
    ensures
        factorials_exponent(arguments, p) == legendre(arguments[0] as int, p) + legendre(
            arguments[1] as int,
            p,
        ) + legendre(arguments[2] as int, p),
{
    let a = arguments;
    reveal_with_fuel(factorials_exponent, 4);
    assert(a.drop_last().drop_last().drop_last() =~= Seq::<u32>::empty());
}

/// The exponent of a prime in the product of six factorials is the sum of
/// its exponents in the six.
pub proof fn lemma_factorials_exponent_of_six(arguments: Seq<u32>, p: int)
    requires
        arguments.len() == 6,
    ensures
        factorials_exponent(arguments, p) == legendre(arguments[0] as int, p) + legendre(
            arguments[1] as int,
            p,
        ) + legendre(arguments[2] as int, p) + legendre(arguments[3] as int, p) + legendre(
            arguments[4] as int,
            p,
        ) + legendre(arguments[5] as int, p),
{
    let a = arguments;
    reveal_with_fuel(factorials_exponent, 7);
    assert(a.drop_last().drop_last().drop_last().drop_last().drop_last().drop_last()
        =~= Seq::<u32>::empty());
}

/// The exponent of a prime in a product of factorials is at most the sum of
/// the numbers.
pub proof fn lemma_factorials_exponent_bound(arguments: Seq<u32>, p: int)
    ensures
        factorials_exponent(arguments, p) <= total(arguments),
        total(arguments) >= 0,
        greatest(arguments) <= total(arguments),
    decreases arguments.len(),
{
    if arguments.len() > 0 {
        lemma_factorials_exponent_bound(arguments.drop_last(), p);
        lemma_legendre_bound(arguments.last() as int, p);
    }
}

/// The product of the factorials of the numbers, which has a factorization
/// where their sum fits in 16 bits.
pub fn factorial_product(
    arguments: &Vec<u32>,
    table: &FactorialTable,
    primes: &mut Primes,
) -> (product: PrimeFactorization)
    requires
        table.wf(),
        old(primes).wf(),
        arguments@.len() >= 1,
        total(arguments@) <= u16::MAX,
    ensures
        final(primes).wf(),
        final(primes).known() >= old(primes).known(),
        is_factorial_product(product, arguments@),
        product.value() == factorials_value(arguments@),
{
    proof {
        lemma_total_prefix(arguments@, 1);
        assert(arguments@.subrange(0, 1).drop_last() =~= Seq::<u32>::empty());
        reveal_with_fuel(total, 2);
        reveal_with_fuel(factorials_exponent, 2);
        reveal_with_fuel(factorials_value, 2);
        reveal_with_fuel(greatest, 2);
        lemma_factorial_fits(arguments@[0] as int);
    }
    let mut product = match factorial(arguments[0], table, primes) {
        Ok(first) => first,
        Err(_) => PrimeFactorization::zero(),
    };
    proof {
        lemma_factorial_value(product, arguments@[0] as nat);
        assert(product.value() == 1 * factorial_of(arguments@[0] as nat));
    }
    let mut i: usize = 1;
    while i < arguments.len()
        invariant
            table.wf(),
            primes.wf(),
            primes.known() >= old(primes).known(),
            1 <= i <= arguments@.len(),
            total(arguments@) <= u16::MAX,
            is_factorial_product(product, arguments@.subrange(0, i as int)),
            product.value() == factorials_value(arguments@.subrange(0, i as int)),
        decreases arguments@.len() - i,
    {
        let ghost before = arguments@.subrange(0, i as int);
        let ghost after = arguments@.subrange(0, i + 1);
        proof {
            lemma_total_prefix(arguments@, i + 1);
            assert(after.drop_last() =~= before);
            lemma_factorial_fits(arguments@[i as int] as int);
        }
        let next = match factorial(arguments[i], table, primes) {
            Ok(next) => next,
            Err(_) => PrimeFactorization::zero(),
        };
        proof {
            lemma_factorial_value(next, arguments@[i as int] as nat);
            assert forall|j: int| #[trigger]
                exponent_at(product@, j) + exponent_at(next@, j) <= u16::MAX by {
                if j >= 0 {
                    assert(exponent_at(product@, (j as nat) as int) == factorials_exponent(
                        before,
                        nth_prime(j as nat),
                    ));
                    assert(exponent_at(next@, (j as nat) as int) == legendre(
                        arguments@[i as int] as int,
                        nth_prime(j as nat),
                    ));
                    lemma_factorials_exponent_bound(after, nth_prime(j as nat));
                }
            }
            lemma_pointwise_sum(product@, next@);
        }
        let ghost earlier = product@;
        product.mul_assign(&next);
        proof {
            assert forall|j: nat| #[trigger]
                exponent_at(product@, j as int) == factorials_exponent(after, nth_prime(j)) by {
                assert(exponent_at(product@, j as int) == exponent_at(earlier, j as int)
                    + exponent_at(next@, j as int));
            }
            lemma_prime_count_monotonic(greatest(before) + 1, greatest(after) + 1);
            lemma_prime_count_monotonic(arguments@[i as int] + 1, greatest(after) + 1);
        }
        i += 1;
    }
    assert(arguments@.subrange(0, i as int) =~= arguments@);
    product
}

/// The numbers up to a position of a list sum to at most the sum of the list.
pub proof fn lemma_total_prefix(arguments: Seq<u32>, n: int)
    requires
        0 <= n <= arguments.len(),
    ensures
        0 <= total(arguments.subrange(0, n)) <= total(arguments),
        forall|j: int| 0 <= j < arguments.len() ==> #[trigger] arguments[j] <= total(arguments),
    decreases arguments.len(),
{
    if arguments.len() > 0 {
        let shorter = arguments.drop_last();
        if n < arguments.len() {
            lemma_total_prefix(shorter, n);
            assert(arguments.subrange(0, n) =~= shorter.subrange(0, n));
        } else {
            lemma_total_prefix(shorter, n - 1);
            assert(arguments.subrange(0, n) =~= arguments);
        }
        assert forall|j: int| 0 <= j < arguments.len() implies #[trigger] arguments[j] <= total(
            arguments,
        ) by {
            if j < shorter.len() {
                assert(shorter[j] == arguments[j]);
            }
        }
    } else {
        assert(arguments.subrange(0, n) =~= arguments);
    }
}

} // verus!
