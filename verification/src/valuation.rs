//! How often a prime divides a number, and what follows for lists of
//! exponents: the exponent of a prime in a product of prime powers is the
//! power that the list holds for it.
use crate::exponents::{exponent_at, lemma_product_upto_positive, product_of, product_upto};
use crate::primality::{
    is_prime, lemma_divisor_bound, lemma_exact_quotient, lemma_multiple_divisible,
    lemma_nth_prime_exists, lemma_nth_prime_increasing, lemma_product_divisible, nth_prime,
};
use vstd::arithmetic::div_mod::{
    lemma_fundamental_div_mod, lemma_mul_mod_noop_left, lemma_small_mod,
};
use vstd::arithmetic::mul::{
    lemma_mul_is_associative, lemma_mul_is_commutative, lemma_mul_strictly_positive,
};
use vstd::arithmetic::power::{lemma_pow_positive, pow};
use vstd::prelude::*;

verus! {

/// How many times `p` divides `n`: the greatest `k` with `p` to the `k`
/// dividing `n`, for `p` from two and `n` from one on.
pub open spec fn valuation(p: int, n: int) -> nat
    decreases n,
    via valuation_decreases
{
    if p >= 2 && n >= 1 && n % p == 0 {
        1 + valuation(p, n / p)
    } else {
        0
    }
}

#[via_fn]
proof fn valuation_decreases(p: int, n: int) {
    if p >= 2 && n >= 1 && n % p == 0 {
        lemma_divisor_bound(p, n);
        lemma_exact_quotient(n, p);
        assert(n / p < n) by (nonlinear_arith)
            requires
                n == p * (n / p),
                p >= 2,
                n >= 1,
        ;
    }
}

/// A prime that divides a product divides one of the two factors.
pub proof fn lemma_prime_divides_product(p: int, a: int, b: int)
    requires
        is_prime(p),
        a >= 1,
        b >= 0,
        (a * b) % p == 0,
        a % p != 0,
    ensures
        b % p == 0,
    decreases a,
{
    if a >= p {
        lemma_mul_mod_noop_left(a, b, p);
        lemma_divisor_bound_remainder(a, p);
        vstd::arithmetic::div_mod::lemma_mod_twice(a, p);
        lemma_prime_divides_product(p, a % p, b);
    } else if a == 1 {
        assert(1 * b == b);
    } else {
        let k = p / a;
        let r = p % a;
        lemma_fundamental_div_mod(p, a);
        lemma_divisor_bound_remainder(p, a);
        assert(r != 0);
        // r * b == p * b - k * (a * b), and p divides both terms
        lemma_product_divisible(p, b);
        lemma_multiple_divisible(p, a * b, k);
        crate::primality::lemma_difference_divisible(p, p * b, k * (a * b));
        assert(r * b == p * b - k * (a * b)) by (nonlinear_arith)
            requires
                p == a * k + r,
        ;
        lemma_small_mod(r as nat, p as nat);
        lemma_prime_divides_product(p, r, b);
    }
}

/// The remainder of a division by a positive number is below the divisor.
proof fn lemma_divisor_bound_remainder(x: int, d: int)
    requires
        d > 0,
    ensures
        0 <= x % d < d,
{
    vstd::arithmetic::div_mod::lemma_mod_bound(x, d);
}

/// Of two different primes, neither divides the other.
pub proof fn lemma_distinct_primes(p: int, q: int)
    requires
        is_prime(p),
        is_prime(q),
        p != q,
    ensures
        q % p != 0,
{
    if p < q {
    } else {
        lemma_small_mod(q as nat, p as nat);
    }
}

/// How often a prime divides a product is the sum of how often it divides
/// the factors.
pub proof fn lemma_valuation_product(p: int, a: int, b: int)
    requires
        is_prime(p),
        a >= 1,
        b >= 1,
    ensures
        valuation(p, a * b) == valuation(p, a) + valuation(p, b),
    decreases a + b,
{
    lemma_mul_strictly_positive(a, b);
    if a % p == 0 {
        lemma_exact_quotient(a, p);
        lemma_divisor_bound(p, a);
        let c = a / p;
        assert(a * b == p * (c * b)) by {
            lemma_mul_is_associative(p, c, b);
        }
        lemma_quotient_of_multiple(p, c * b);
        assert(c < a) by (nonlinear_arith)
            requires
                a == p * c,
                p >= 2,
                a >= 1,
        ;
        lemma_valuation_product(p, c, b);
    } else if b % p == 0 {
        lemma_exact_quotient(b, p);
        lemma_divisor_bound(p, b);
        let c = b / p;
        assert(a * b == p * (a * c)) by (nonlinear_arith)
            requires
                b == p * c,
        ;
        lemma_quotient_of_multiple(p, a * c);
        assert(c < b) by (nonlinear_arith)
            requires
                b == p * c,
                p >= 2,
                b >= 1,
        ;
        lemma_valuation_product(p, a, c);
    } else {
        if (a * b) % p == 0 {
            lemma_prime_divides_product(p, a, b);
        }
    }
}

/// A multiple of `p` divided by `p` gives the other factor back.
pub proof fn lemma_quotient_of_multiple(p: int, c: int)
    requires
        p >= 1,
    ensures
        (p * c) % p == 0,
        (p * c) / p == c,
{
    lemma_product_divisible(p, c);
    vstd::arithmetic::div_mod::lemma_div_multiples_vanish(c, p);
    lemma_mul_is_commutative(p, c);
}

/// A prime divides its own `x`-th power `x` times, and a power of another
/// prime not at all.
pub proof fn lemma_valuation_power(p: int, q: int, x: nat)
    requires
        is_prime(p),
        is_prime(q),
    ensures
        valuation(p, pow(q, x)) == if p == q {
            x
        } else {
            0
        },
    decreases x,
{
    reveal(pow);
    if x == 0 {
        lemma_small_mod(1, p as nat);
    } else {
        lemma_valuation_power(p, q, (x - 1) as nat);
        lemma_pow_positive(q, (x - 1) as nat);
        lemma_valuation_product(p, q, pow(q, (x - 1) as nat));
        lemma_valuation_prime(p, q);
    }
}

/// A prime divides itself once, and another prime not at all.
pub proof fn lemma_valuation_prime(p: int, q: int)
    requires
        is_prime(p),
        is_prime(q),
    ensures
        valuation(p, q) == if p == q {
            1nat
        } else {
            0nat
        },
{
    if p == q {
        lemma_quotient_of_multiple(p, 1);
        lemma_small_mod(1, p as nat);
        reveal_with_fuel(valuation, 2);
    } else {
        lemma_distinct_primes(p, q);
    }
}

/// How often the `i`-th prime divides the product over the first `n`
/// positions of a list is the exponent at `i`, where `i` is among them.
pub proof fn lemma_valuation_upto(e: Seq<u16>, n: nat, i: nat)
    ensures
        valuation(nth_prime(i), product_upto(e, n)) == if i < n {
            exponent_at(e, i as int)
        } else {
            0
        },
    decreases n,
{
    let p = nth_prime(i);
    lemma_nth_prime_exists(i);
    if n == 0 {
        lemma_small_mod(1, p as nat);
    } else {
        let m = (n - 1) as nat;
        let q = nth_prime(m);
        lemma_nth_prime_exists(m);
        lemma_valuation_upto(e, m, i);
        lemma_product_upto_positive(e, m);
        lemma_pow_positive(q, exponent_at(e, m as int));
        lemma_valuation_product(p, product_upto(e, m), pow(q, exponent_at(e, m as int)));
        lemma_valuation_power(p, q, exponent_at(e, m as int));
        if i < m {
            lemma_nth_prime_increasing(i, m);
        } else if m < i {
            lemma_nth_prime_increasing(m, i);
        }
    }
}

/// How often the `i`-th prime divides the number of a list of exponents is
/// the exponent that the list holds at `i`.
pub proof fn lemma_valuation_of_product(e: Seq<u16>, i: nat)
    ensures
        valuation(nth_prime(i), product_of(e)) == exponent_at(e, i as int),
{
    lemma_valuation_upto(e, e.len(), i);
}

/// Two lists of exponents that stand for the same number hold the same
/// exponent at every position.
pub proof fn lemma_unique_factorization(a: Seq<u16>, b: Seq<u16>)
    requires
        product_of(a) == product_of(b),
    ensures
        forall|i: int| exponent_at(a, i) == exponent_at(b, i),
{
    assert forall|i: int| exponent_at(a, i) == exponent_at(b, i) by {
        if i >= 0 {
            lemma_valuation_of_product(a, i as nat);
            lemma_valuation_of_product(b, i as nat);
        }
    }
}

} // verus!
