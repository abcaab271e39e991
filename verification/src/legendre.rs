//! The exponents of the primes in a factorial, by Legendre's formula: the
//! exponent of `p` in `n!` is the sum of `n / p^k` over `k` from one on.
use crate::exponents::{
    lemma_product_by_single, lemma_product_by_sum, lemma_product_by_zero, product_by,
};
use crate::primality::{
    factorial_of, lemma_divides_transitive, lemma_divisor_bound, lemma_exact_quotient,
    lemma_nth_prime_exists, lemma_nth_prime_increasing, lemma_prime_count_above_prime,
    lemma_prime_count_monotonic, lemma_prime_divisor, lemma_prime_is_nth, lemma_product_divisible,
    nth_prime, prime_count,
};
use crate::valuation::{
    lemma_quotient_of_multiple, lemma_valuation_prime, lemma_valuation_product, valuation,
};
use vstd::arithmetic::div_mod::{
    lemma_fundamental_div_mod, lemma_fundamental_div_mod_converse, lemma_small_mod,
};
use vstd::arithmetic::mul::lemma_mul_is_commutative;
use vstd::prelude::*;

verus! {

/// The sum of `n / power`, `n / (power * p)`, and so on, as long as the
/// divisor is at most `n`.
pub open spec fn legendre_from(n: int, p: int, power: int) -> nat
    decreases
        (if 1 <= power <= n {
            n - power + 1
        } else {
            0
        }),
    via legendre_from_decreases
{
    if p >= 2 && 1 <= power <= n {
        (n / power) as nat + legendre_from(n, p, power * p)
    } else {
        0
    }
}

#[via_fn]
proof fn legendre_from_decreases(n: int, p: int, power: int) {
    if p >= 2 && 1 <= power <= n {
        assert(power * p > power) by (nonlinear_arith)
            requires
                p >= 2,
                power >= 1,
        ;
    }
}

/// The exponent of `p` in the factorial of `n`, by Legendre's formula.
pub open spec fn legendre(n: int, p: int) -> nat {
    legendre_from(n, p, p)
}

/// How many of `power`, `power * p`, and so on, up to `n`, divide `n`.
pub open spec fn power_count(n: int, p: int, power: int) -> nat
    decreases
        (if 1 <= power <= n {
            n - power + 1
        } else {
            0
        }),
    via power_count_decreases
{
    if p >= 2 && 1 <= power <= n {
        if n % power == 0 {
            1 + power_count(n, p, power * p)
        } else {
            power_count(n, p, power * p)
        }
    } else {
        0
    }
}

#[via_fn]
proof fn power_count_decreases(n: int, p: int, power: int) {
    if p >= 2 && 1 <= power <= n {
        assert(power * p > power) by (nonlinear_arith)
            requires
                p >= 2,
                power >= 1,
        ;
    }
}

/// For each prime, by its index, how often it divides `n`.
pub open spec fn valuations_of(n: int) -> spec_fn(nat) -> nat {
    |i: nat| valuation(nth_prime(i), n)
}

/// For each prime, by its index, its exponent in the factorial of `n`.
pub open spec fn legendre_of(n: int) -> spec_fn(nat) -> nat {
    |i: nat| legendre(n, nth_prime(i))
}

/// From `n - 1` to `n` the quotient by `d` grows by one exactly where `d`
/// divides `n`.
pub proof fn lemma_quotient_successor(n: int, d: int)
    requires
        n >= 1,
        d >= 1,
    ensures
        n / d == (n - 1) / d + if n % d == 0 {
            1int
        } else {
            0int
        },
{
    lemma_fundamental_div_mod(n, d);
    vstd::arithmetic::div_mod::lemma_mod_bound(n, d);
    let q = n / d;
    let r = n % d;
    lemma_mul_is_commutative(d, q);
    if r == 0 {
        assert(n - 1 == (q - 1) * d + (d - 1)) by (nonlinear_arith)
            requires
                n == q * d + r,
                r == 0,
        ;
        lemma_fundamental_div_mod_converse(n - 1, d, q - 1, d - 1);
    } else {
        lemma_fundamental_div_mod_converse(n - 1, d, q, r - 1);
    }
}

/// From `n - 1` to `n` the sum grows by the number of divisors of `n` among
/// the powers.
pub proof fn lemma_legendre_step(n: int, p: int, power: int)
    requires
        n >= 1,
        p >= 2,
        power >= 1,
    ensures
        legendre_from(n, p, power) == legendre_from(n - 1, p, power) + power_count(n, p, power),
    decreases
        (if power <= n {
            n - power + 1
        } else {
            0
        }),
{
    if power <= n {
        assert(power * p > power) by (nonlinear_arith)
            requires
                p >= 2,
                power >= 1,
        ;
        lemma_legendre_step(n, p, power * p);
        lemma_quotient_successor(n, power);
        if power == n {
            vstd::arithmetic::div_mod::lemma_mod_self_0(n);
            vstd::arithmetic::div_mod::lemma_div_by_self(n);
        } else {
            vstd::arithmetic::div_mod::lemma_div_pos_is_pos(n - 1, power);
        }
        vstd::arithmetic::div_mod::lemma_div_pos_is_pos(n, power);
    }
}

/// Where `power` does not divide `n`, none of the further powers does.
pub proof fn lemma_power_count_nondivisor(n: int, p: int, power: int)
    requires
        n >= 1,
        p >= 2,
        power >= 1,
        n % power != 0,
    ensures
        power_count(n, p, power) == 0,
    decreases
        (if power <= n {
            n - power + 1
        } else {
            0
        }),
{
    if power <= n {
        assert(power * p > power) by (nonlinear_arith)
            requires
                p >= 2,
                power >= 1,
        ;
        if n % (power * p) == 0 {
            lemma_product_divisible(power, p);
            lemma_divides_transitive(power, power * p, n);
        }
        lemma_power_count_nondivisor(n, p, power * p);
    }
}

/// For `a` that divides `n`: `a * b` divides `n` exactly where `b` divides
/// `n / a`, and the quotients are then the same.
pub proof fn lemma_divide_twice(n: int, a: int, b: int)
    requires
        a >= 1,
        b >= 1,
        n >= 1,
        n % a == 0,
    ensures
        (n % (a * b) == 0) == ((n / a) % b == 0),
        n % (a * b) == 0 ==> n / (a * b) == (n / a) / b && a * b <= n,
{
    let m = n / a;
    lemma_exact_quotient(n, a);
    assert(a * b >= 1) by (nonlinear_arith)
        requires
            a >= 1,
            b >= 1,
    ;
    if n % (a * b) == 0 {
        let k = n / (a * b);
        lemma_exact_quotient(n, a * b);
        lemma_divisor_bound(a * b, n);
        assert(m == b * k) by (nonlinear_arith)
            requires
                n == a * m,
                n == (a * b) * k,
                a >= 1,
        ;
        lemma_quotient_of_multiple(b, k);
    }
    if m % b == 0 {
        let k = m / b;
        lemma_exact_quotient(m, b);
        assert(n == (a * b) * k) by (nonlinear_arith)
            requires
                n == a * m,
                m == b * k,
        ;
        lemma_quotient_of_multiple(a * b, k);
    }
}

/// Where `power` divides `n`, the further powers that divide `n` are as many
/// as `p` divides the quotient.
pub proof fn lemma_power_count_valuation(n: int, p: int, power: int)
    requires
        n >= 1,
        p >= 2,
        power >= 1,
        n % power == 0,
    ensures
        power_count(n, p, power * p) == valuation(p, n / power),
    decreases
        (if power <= n {
            n - power + 1
        } else {
            0
        }),
{
    let next = power * p;
    assert(next > power) by (nonlinear_arith)
        requires
            p >= 2,
            power >= 1,
            next == power * p,
    ;
    lemma_divisor_bound(power, n);
    lemma_divide_twice(n, power, p);
    if n % next == 0 {
        lemma_power_count_valuation(n, p, next);
    } else {
        lemma_power_count_nondivisor(n, p, next);
    }
}

/// From `n - 1` to `n` the exponent of `p` in the factorial grows by how often
/// `p` divides `n`.
pub proof fn lemma_legendre_successor(n: int, p: int)
    requires
        n >= 1,
        p >= 2,
    ensures
        legendre(n, p) == legendre(n - 1, p) + valuation(p, n),
{
    lemma_legendre_step(n, p, p);
    lemma_power_count_valuation(n, p, 1);
    assert(1 * p == p);
    assert(n / 1 == n) by {
        vstd::arithmetic::div_mod::lemma_div_basics(n);
    }
    assert(n % 1 == 0) by {
        lemma_small_mod(0, 1);
        vstd::arithmetic::div_mod::lemma_mod_multiples_basic(n, 1);
        assert(n * 1 == n);
    }
}

/// Every number from one on is the product of the primes that divide it,
/// each as often as it does.
pub proof fn lemma_fundamental(n: int, count: nat)
    requires
        n >= 1,
        count >= prime_count(n + 1),
    ensures
        product_by(valuations_of(n), count) == n,
    decreases n,
{
    if n == 1 {
        assert forall|i: nat| i < count implies #[trigger] valuations_of(n)(i) == 0 by {
            lemma_nth_prime_exists(i);
            lemma_small_mod(1, nth_prime(i) as nat);
        }
        lemma_product_by_zero(valuations_of(n), count);
    } else {
        let q = lemma_prime_divisor(n);
        let j = prime_count(q);
        lemma_prime_is_nth(q);
        lemma_prime_count_above_prime(q, n + 1);
        let m = n / q;
        lemma_exact_quotient(n, q);
        lemma_divisor_bound(q, n);
        assert(m < n) by (nonlinear_arith)
            requires
                n == q * m,
                q >= 2,
                n >= 1,
        ;
        lemma_prime_count_monotonic(m + 1, n + 1);
        lemma_fundamental(m, count);
        let single = |i: nat|
            if i == j {
                1nat
            } else {
                0nat
            };
        assert forall|i: nat| i < count implies #[trigger] valuations_of(n)(i) == single(i)
            + valuations_of(m)(i) by {
            let p = nth_prime(i);
            lemma_nth_prime_exists(i);
            lemma_valuation_product(p, q, m);
            lemma_valuation_prime(p, q);
            if i < j {
                lemma_nth_prime_increasing(i, j);
            } else if j < i {
                lemma_nth_prime_increasing(j, i);
            }
        }
        lemma_product_by_sum(single, valuations_of(m), valuations_of(n), count);
        lemma_product_by_single(single, j, count);
    }
}

/// Legendre's formula: the primes raised to their exponents by the formula
/// multiply to the factorial.
pub proof fn lemma_legendre(n: nat, count: nat)
    requires
        count >= prime_count(n as int + 1),
    ensures
        product_by(legendre_of(n as int), count) == factorial_of(n),
    decreases n,
{
    if n == 0 {
        assert forall|i: nat| i < count implies #[trigger] legendre_of(n as int)(i) == 0 by {
            lemma_nth_prime_exists(i);
        }
        lemma_product_by_zero(legendre_of(n as int), count);
    } else {
        let m = (n - 1) as nat;
        lemma_prime_count_monotonic(m as int + 1, n as int + 1);
        lemma_legendre(m, count);
        lemma_fundamental(n as int, count);
        assert forall|i: nat| i < count implies #[trigger] legendre_of(n as int)(i) == legendre_of(
            m as int,
        )(i) + valuations_of(n as int)(i) by {
            lemma_nth_prime_exists(i);
            lemma_legendre_successor(n as int, nth_prime(i));
        }
        lemma_product_by_sum(
            legendre_of(m as int),
            valuations_of(n as int),
            legendre_of(n as int),
            count,
        );
        lemma_mul_is_commutative(n as int, factorial_of(m));
    }
}

/// The sum from `power` on is at most twice its first term.
pub proof fn lemma_legendre_from_bound(n: int, p: int, power: int)
    requires
        n >= 0,
        p >= 2,
        power >= 1,
    ensures
        legendre_from(n, p, power) <= 2 * (n / power),
    decreases
        (if power <= n {
            n - power + 1
        } else {
            0
        }),
{
    vstd::arithmetic::div_mod::lemma_div_pos_is_pos(n, power);
    if power <= n {
        assert(power * p > power) by (nonlinear_arith)
            requires
                p >= 2,
                power >= 1,
        ;
        lemma_legendre_from_bound(n, p, power * p);
        vstd::arithmetic::div_mod::lemma_div_denominator(n, power, p);
        let x = n / power;
        lemma_fundamental_div_mod(x, p);
        vstd::arithmetic::div_mod::lemma_mod_bound(x, p);
        assert(2 * (x / p) <= x) by (nonlinear_arith)
            requires
                x == p * (x / p) + x % p,
                0 <= x % p,
                p >= 2,
                x >= 0,
        ;
    }
}

/// The exponent of a prime in the factorial of `n` is at most `n`.
pub proof fn lemma_legendre_bound(n: int, p: int)
    requires
        n >= 0,
    ensures
        legendre(n, p) <= n,
{
    if p >= 2 {
        lemma_legendre_from_bound(n, p, p);
        lemma_fundamental_div_mod(n, p);
        vstd::arithmetic::div_mod::lemma_mod_bound(n, p);
        assert(2 * (n / p) <= n) by (nonlinear_arith)
            requires
                n == p * (n / p) + n % p,
                0 <= n % p,
                p >= 2,
                n >= 0,
        ;
    }
}

} // verus!
