//! Factorials as prime factorizations: the small ones from a table that is
//! filled once, the others computed when asked for.
use crate::exponents::{exponent_at, exponents_of, lemma_product_by_agree, lemma_product_upto_by};
use crate::factorization::PrimeFactorization;
use crate::factors::{exponent_list, Factors};
use crate::legendre::{legendre, legendre_from, legendre_of, lemma_legendre, lemma_legendre_bound};
use crate::primality::{
    factorial_of, lemma_nth_prime_exists, lemma_nth_prime_increasing, lemma_prime_count_above_prime,
    lemma_prime_count_monotonic, nth_prime, prime_count,
};
use crate::primes::Primes;
use vstd::prelude::*;

verus! {

/// How many factorials the table holds: those of the numbers below it.
pub const FACTORIAL_CACHE_SIZE: usize = 100;

/// An exponent of the factorization of a factorial does not fit in the 16
/// bits that a factorization has for it.
#[derive(Debug, PartialEq, Eq, Clone, Copy)]
pub struct CapacityOverflow;

/// The factorials of the numbers below `FACTORIAL_CACHE_SIZE`.
pub struct FactorialTable {
    entries: Vec<PrimeFactorization>,
}

/// Whether every exponent of the factorization of `n!` fits in 16 bits.
pub open spec fn factorial_fits(n: int) -> bool {
    forall|i: nat| #[trigger] legendre(n, nth_prime(i)) <= u16::MAX
}

/// The exponents of the factorization of `n!`: for each prime up to `n` the
/// one that Legendre's formula gives.
pub open spec fn factorial_exponents(n: int) -> Seq<u16> {
    Seq::new(prime_count(n + 1), |i: int| legendre(n, nth_prime(i as nat)) as u16)
}

/// Whether `f` is the factorization of `n!`.
pub open spec fn is_factorial(f: PrimeFactorization, n: int) -> bool {
    &&& f.sign == 1
    &&& f@ == factorial_exponents(n)
}

/// The factorization of `n!` stands for `n!`, and none of its exponents is
/// above `n`.
pub proof fn lemma_factorial_value(f: PrimeFactorization, n: nat)
    requires
        is_factorial(f, n as int),
        factorial_fits(n as int),
    ensures
        f.value() == factorial_of(n),
        forall|i: nat| #[trigger] exponent_at(f@, i as int) == legendre(n as int, nth_prime(i)),
        forall|i: int| #[trigger] exponent_at(f@, i) <= n,
{
    let count = prime_count(n as int + 1);
    assert forall|i: nat| #[trigger]
        exponent_at(f@, i as int) == legendre(n as int, nth_prime(i)) by {
        if i < count {
            assert(legendre(n as int, nth_prime(i)) <= u16::MAX);
        } else {
            lemma_nth_prime_exists(i);
            if nth_prime(i) <= n {
                lemma_prime_count_above_prime(nth_prime(i), n as int + 1);
            }
        }
    }
    assert forall|i: int| #[trigger] exponent_at(f@, i) <= n by {
        if i >= 0 {
            assert(exponent_at(f@, (i as nat) as int) == legendre(n as int, nth_prime(i as nat)));
            lemma_legendre_bound(n as int, nth_prime(i as nat));
        }
    }
    lemma_product_upto_by(f@, count);
    assert forall|i: nat| i < count implies #[trigger] exponents_of(f@)(i) == legendre_of(
        n as int,
    )(i) by {
        assert(exponent_at(f@, i as int) == legendre(n as int, nth_prime(i)));
    }
    lemma_product_by_agree(exponents_of(f@), legendre_of(n as int), count);
    lemma_legendre(n, count);
}

/// The factorial of a number that fits in 16 bits has a factorization.
pub proof fn lemma_factorial_fits(n: int)
    requires
        0 <= n <= u16::MAX,
    ensures
        factorial_fits(n),
{
    assert forall|i: nat| #[trigger] legendre(n, nth_prime(i)) <= u16::MAX by {
        lemma_legendre_bound(n, nth_prime(i));
    }
}

/// The factorization of `n!`, computed prime by prime with Legendre's
/// formula. There is none where an exponent does not fit in 16 bits.
pub fn compute_factorial(n: u32, primes: &mut Primes) -> (result: Result<
    PrimeFactorization,
    CapacityOverflow,
>)
    requires
        old(primes).wf(),
    ensures
        final(primes).wf(),
        final(primes).known() >= old(primes).known(),
        result.is_ok() <==> factorial_fits(n as int),
        result matches Ok(f) ==> is_factorial(f, n as int) && f.value() == factorial_of(n as nat),
{
    let mut factors = Factors::new();
    let mut iter = crate::primes::primes();
    loop
        invariant_except_break
            exponent_list(factors).len() == iter.position(),
        invariant
            primes.wf(),
            primes.known() >= old(primes).known(),
            exponent_list(factors).len() <= prime_count(n as int + 1),
            forall|i: int|
                0 <= i < exponent_list(factors).len() ==> #[trigger] exponent_list(factors)[i]
                    == legendre(n as int, nth_prime(i as nat)),
        ensures
            nth_prime(exponent_list(factors).len()) > n,
        decreases prime_count(n as int + 1) - exponent_list(factors).len(),
    {
        let ghost index = iter.position();
        proof {
            lemma_nth_prime_exists(index);
        }
        let prime = match iter.next(primes) {
            Some(prime) => prime,
            None => {
                break ;
            },
        };
        if prime > n {
            break ;
        }
        let mut factor: u64 = 0;
        let mut power: u64 = prime as u64;
        while power <= n as u64
            invariant
                primes.wf(),
                primes.known() >= old(primes).known(),
                2 <= prime <= n,
                1 <= power,
                prime == nth_prime(index),
                factor + legendre_from(n as int, prime as int, power as int) == legendre(
                    n as int,
                    prime as int,
                ),
                factor <= u16::MAX,
            decreases
                (if power <= n {
                    n - power + 1
                } else {
                    0
                }),
        {
            proof {
                assert(power * prime > power && power * prime <= u64::MAX) by (nonlinear_arith)
                    requires
                        2 <= prime <= n,
                        1 <= power <= n,
                        n <= u32::MAX,
                ;
                vstd::arithmetic::div_mod::lemma_div_pos_is_pos(n as int, power as int);
                vstd::arithmetic::div_mod::lemma_div_is_ordered_by_denominator(
                    n as int,
                    1,
                    power as int,
                );
                vstd::arithmetic::div_mod::lemma_div_basics(n as int);
            }
            factor += (n as u64) / power;
            if factor > u16::MAX as u64 {
                assert(legendre(n as int, nth_prime(index)) > u16::MAX);
                return Err(CapacityOverflow);
            }
            power *= prime as u64;
        }
        factors.push(factor as u16);
        proof {
            lemma_prime_count_above_prime(prime as int, n as int + 1);
            lemma_nth_prime_exists(index);
        }
    }
    let factorization = PrimeFactorization { sign: 1, factors };
    proof {
        let len = factorization@.len();
        lemma_nth_prime_exists(len);
        lemma_prime_count_monotonic(n as int + 1, nth_prime(len));
        assert(factorization@ =~= factorial_exponents(n as int));
        assert forall|i: nat| #[trigger] legendre(n as int, nth_prime(i)) <= u16::MAX by {
            if i >= len {
                if i > len {
                    lemma_nth_prime_increasing(len, i);
                }
            } else {
                assert(factorization@[i as int] == legendre(n as int, nth_prime(i)));
            }
        }
        lemma_factorial_value(factorization, n as nat);
    }
    Ok(factorization)
}

impl FactorialTable {
    /// The table holds the factorization of `n!` for each `n` below its size.
    pub closed spec fn wf(&self) -> bool {
        &&& self.entries@.len() == FACTORIAL_CACHE_SIZE
        &&& forall|n: int|
            0 <= n < FACTORIAL_CACHE_SIZE ==> is_factorial(#[trigger] self.entries@[n], n)
    }

    /// Computes the table.
    pub fn new(primes: &mut Primes) -> (table: FactorialTable)
        requires
            old(primes).wf(),
        ensures
            final(primes).wf(),
            final(primes).known() >= old(primes).known(),
            table.wf(),
    {
        let mut entries: Vec<PrimeFactorization> = Vec::new();
        let mut n: u32 = 0;
        while n < FACTORIAL_CACHE_SIZE as u32
            invariant
                primes.wf(),
                primes.known() >= old(primes).known(),
                n <= FACTORIAL_CACHE_SIZE,
                entries@.len() == n,
                forall|m: int| 0 <= m < n ==> is_factorial(#[trigger] entries@[m], m),
            decreases FACTORIAL_CACHE_SIZE - n,
        {
            proof {
                lemma_factorial_fits(n as int);
            }
            match compute_factorial(n, primes) {
                Ok(factorization) => {
                    entries.push(factorization);
                },
                Err(_) => {},
            }
            n += 1;
        }
        FactorialTable { entries }
    }
}

/// The factorization of `n!`: from the table for `n` below
/// `FACTORIAL_CACHE_SIZE`, computed otherwise. There is none where an
/// exponent does not fit in 16 bits.
pub fn factorial(n: u32, table: &FactorialTable, primes: &mut Primes) -> (result: Result<
    PrimeFactorization,
    CapacityOverflow,
>)
    requires
        table.wf(),
        old(primes).wf(),
    ensures
        final(primes).wf(),
        final(primes).known() >= old(primes).known(),
        result.is_ok() <==> factorial_fits(n as int),
        result matches Ok(f) ==> is_factorial(f, n as int) && f.value() == factorial_of(n as nat),
{
    if (n as usize) < FACTORIAL_CACHE_SIZE {
        let entry = table.entries[n as usize].clone();
        proof {
            lemma_factorial_fits(n as int);
            lemma_factorial_value(entry, n as nat);
        }
        Ok(entry)
    } else {
        compute_factorial(n, primes)
    }
}

} // verus!
