//! Divisibility, prime numbers and their enumeration, as mathematical
//! definitions with the lemmas the rest of the crate builds on.
use vstd::arithmetic::div_mod::*;
use vstd::arithmetic::mul::*;
use vstd::prelude::*;

verus! {

/// Whether `p` is a prime number: at least two, and without a divisor strictly
/// between one and itself.
pub open spec fn is_prime(p: int) -> bool {
    &&& 2 <= p
    &&& forall|d: int| 2 <= d < p ==> #[trigger] (p % d) != 0
}

/// The number of primes strictly below `n`.
pub open spec fn prime_count(n: int) -> nat
    decreases n,
{
    if n <= 2 {
        0
    } else if is_prime(n - 1) {
        prime_count(n - 1) + 1
    } else {
        prime_count(n - 1)
    }
}

/// Whether `p` is the prime with exactly `k` primes below it.
pub open spec fn is_nth_prime(k: nat, p: int) -> bool {
    is_prime(p) && prime_count(p) == k
}

/// The `k`-th prime, counted from zero: `nth_prime(0) == 2`.
pub open spec fn nth_prime(k: nat) -> int {
    choose|p: int| is_nth_prime(k, p)
}

/// Whether `q` is the smallest prime above `p`.
pub open spec fn is_next_prime(p: int, q: int) -> bool {
    &&& is_prime(q)
    &&& p < q
    &&& forall|r: int| p < r < q ==> !is_prime(r)
}

/// The product `1 * 2 * ... * n`.
pub open spec fn factorial_of(n: nat) -> int
    decreases n,
{
    if n == 0 {
        1
    } else {
        n * factorial_of((n - 1) as nat)
    }
}

/// A product is divisible by each of its two factors.
pub proof fn lemma_product_divisible(a: int, b: int)
    requires
        a > 0,
    ensures
        (a * b) % a == 0,
        (b * a) % a == 0,
{
    lemma_mod_multiples_basic(b, a);
    lemma_mul_is_commutative(a, b);
}

/// A number is its divisor times the quotient.
pub proof fn lemma_exact_quotient(n: int, d: int)
    requires
        d > 0,
        n % d == 0,
    ensures
        n == d * (n / d),
{
    lemma_fundamental_div_mod(n, d);
}

/// Every multiple of a multiple of `d` is a multiple of `d`.
pub proof fn lemma_multiple_divisible(d: int, m: int, k: int)
    requires
        d > 0,
        m % d == 0,
    ensures
        (m * k) % d == 0,
        (k * m) % d == 0,
{
    lemma_exact_quotient(m, d);
    let x = m / d;
    assert(m * k == d * (x * k)) by {
        lemma_mul_is_associative(d, x, k);
    }
    lemma_product_divisible(d, x * k);
    lemma_mul_is_commutative(m, k);
}

/// Divisibility is transitive.
pub proof fn lemma_divides_transitive(a: int, b: int, c: int)
    requires
        a > 0,
        b > 0,
        b % a == 0,
        c % b == 0,
    ensures
        c % a == 0,
{
    lemma_exact_quotient(c, b);
    lemma_multiple_divisible(a, b, c / b);
}

/// A divisor of two numbers divides their difference.
pub proof fn lemma_difference_divisible(d: int, a: int, b: int)
    requires
        d > 0,
        a % d == 0,
        b % d == 0,
    ensures
        (a - b) % d == 0,
{
    lemma_exact_quotient(a, d);
    lemma_exact_quotient(b, d);
    assert(a - b == d * (a / d - b / d)) by {
        lemma_mul_is_distributive_sub(d, a / d, b / d);
    }
    lemma_product_divisible(d, a / d - b / d);
}

/// A positive multiple of `d` is at least `d`.
pub proof fn lemma_divisor_bound(d: int, n: int)
    requires
        d > 0,
        n > 0,
        n % d == 0,
    ensures
        d <= n,
        1 <= n / d <= n,
{
    lemma_exact_quotient(n, d);
    let x = n / d;
    assert(x >= 1 && d <= n && x <= n) by (nonlinear_arith)
        requires
            n == d * x,
            d > 0,
            n > 0,
    ;
}

/// Every number from two on has a prime divisor.
pub proof fn lemma_prime_divisor(n: int) -> (q: int)
    requires
        n >= 2,
    ensures
        is_prime(q),
        q <= n,
        n % q == 0,
    decreases n,
{
    if is_prime(n) {
        lemma_mod_self_0(n);
        n
    } else {
        let d = choose|d: int| 2 <= d < n && #[trigger] (n % d) == 0;
        let q = lemma_prime_divisor(d);
        lemma_divides_transitive(q, d, n);
        q
    }
}

/// A factorial is positive.
pub proof fn lemma_factorial_positive(n: nat)
    ensures
        factorial_of(n) >= 1,
    decreases n,
{
    if n > 0 {
        lemma_factorial_positive((n - 1) as nat);
        lemma_mul_strictly_positive(n as int, factorial_of((n - 1) as nat));
    }
}

/// `n!` is divisible by every number from one to `n`.
pub proof fn lemma_factorial_divisible(n: nat, d: int)
    requires
        1 <= d <= n,
    ensures
        factorial_of(n) % d == 0,
    decreases n,
{
    let rest = factorial_of((n - 1) as nat);
    if d == n {
        lemma_product_divisible(d, rest);
    } else {
        lemma_factorial_divisible((n - 1) as nat, d);
        lemma_multiple_divisible(d, rest, n as int);
    }
}

/// There is a prime above every number.
pub proof fn lemma_prime_above(n: int) -> (q: int)
    ensures
        is_prime(q),
        q > n,
{
    if n < 2 {
        2
    } else {
        let f = factorial_of(n as nat);
        lemma_factorial_positive(n as nat);
        let q = lemma_prime_divisor(f + 1);
        if q <= n {
            lemma_factorial_divisible(n as nat, q);
            lemma_difference_divisible(q, f + 1, f);
            lemma_divisor_bound(q, 1);
        }
        q
    }
}

/// The greater the number, the more primes are below it.
pub proof fn lemma_prime_count_monotonic(a: int, b: int)
    requires
        a <= b,
    ensures
        prime_count(a) <= prime_count(b),
    decreases b - a,
{
    if a < b {
        lemma_prime_count_monotonic(a, b - 1);
    }
}

/// A prime below `n` is counted among the primes below `n`.
pub proof fn lemma_prime_count_above_prime(p: int, n: int)
    requires
        is_prime(p),
        p < n,
    ensures
        prime_count(n) > prime_count(p),
{
    lemma_prime_count_monotonic(p + 1, n);
}

/// The count does not change over a stretch without primes.
pub proof fn lemma_prime_count_gap(a: int, b: int)
    requires
        a <= b,
        forall|r: int| a <= r < b ==> !is_prime(r),
    ensures
        prime_count(b) == prime_count(a),
    decreases b - a,
{
    if a < b {
        lemma_prime_count_gap(a, b - 1);
    }
}

/// At most one number is the `k`-th prime.
pub proof fn lemma_nth_prime_unique(k: nat, p: int, q: int)
    requires
        is_nth_prime(k, p),
        is_nth_prime(k, q),
    ensures
        p == q,
{
    if p < q {
        lemma_prime_count_above_prime(p, q);
    } else if q < p {
        lemma_prime_count_above_prime(q, p);
    }
}

/// The smallest prime above `n`, where `s` is a prime above `n`.
proof fn lemma_least_prime_above(n: int, s: int) -> (q: int)
    requires
        is_prime(s),
        n < s,
    ensures
        is_next_prime(n, q),
    decreases s - n,
{
    if exists|t: int| n < t < s && is_prime(t) {
        let t = choose|t: int| n < t < s && is_prime(t);
        lemma_least_prime_above(n, t)
    } else {
        s
    }
}

/// Every index has its prime: `nth_prime` is defined everywhere.
pub proof fn lemma_nth_prime_exists(k: nat)
    ensures
        is_nth_prime(k, nth_prime(k)),
    decreases k,
{
    if k == 0 {
        assert(is_nth_prime(0, 2));
    } else {
        let j = (k - 1) as nat;
        lemma_nth_prime_exists(j);
        let p = nth_prime(j);
        let r = lemma_prime_above(p);
        let q = lemma_least_prime_above(p, r);
        lemma_prime_count_gap(p + 1, q);
        assert(is_nth_prime(k, q));
    }
}

/// A number that is the `k`-th prime is `nth_prime(k)`.
pub proof fn lemma_nth_prime_is(k: nat, p: int)
    requires
        is_nth_prime(k, p),
    ensures
        nth_prime(k) == p,
{
    lemma_nth_prime_exists(k);
    lemma_nth_prime_unique(k, p, nth_prime(k));
}

/// The first prime is 2.
pub proof fn lemma_first_prime()
    ensures
        nth_prime(0) == 2,
{
    assert(is_nth_prime(0, 2));
    lemma_nth_prime_is(0, 2);
}

/// Every prime is the `nth_prime` of the number of primes below it.
pub proof fn lemma_prime_is_nth(p: int)
    requires
        is_prime(p),
    ensures
        nth_prime(prime_count(p)) == p,
{
    lemma_nth_prime_is(prime_count(p), p);
}

/// The primes come in strictly increasing order.
pub proof fn lemma_nth_prime_increasing(i: nat, j: nat)
    requires
        i < j,
    ensures
        nth_prime(i) < nth_prime(j),
{
    lemma_nth_prime_exists(i);
    lemma_nth_prime_exists(j);
    if nth_prime(j) <= nth_prime(i) {
        lemma_prime_count_monotonic(nth_prime(j), nth_prime(i));
    }
}

/// The prime after `nth_prime(k)` is `nth_prime(k + 1)`.
pub proof fn lemma_nth_prime_successor(k: nat)
    ensures
        is_next_prime(nth_prime(k), nth_prime(k + 1)),
{
    let p = nth_prime(k);
    let q = nth_prime(k + 1);
    lemma_nth_prime_exists(k);
    lemma_nth_prime_exists(k + 1);
    lemma_nth_prime_increasing(k, k + 1);
    assert forall|r: int| p < r < q implies !is_prime(r) by {
        if is_prime(r) {
            lemma_prime_count_above_prime(p, r);
            lemma_prime_count_above_prime(r, q);
        }
    }
}

/// A prime that follows `nth_prime(k)` with no prime between is `nth_prime(k + 1)`.
pub proof fn lemma_next_prime_is_nth(k: nat, q: int)
    requires
        is_next_prime(nth_prime(k), q),
    ensures
        nth_prime(k + 1) == q,
{
    let p = nth_prime(k);
    lemma_nth_prime_exists(k);
    lemma_prime_count_gap(p + 1, q);
    lemma_nth_prime_is(k + 1, q);
}

/// The `k`-th prime is at least `k + 2`.
pub proof fn lemma_nth_prime_lower_bound(k: nat)
    ensures
        nth_prime(k) >= k + 2,
    decreases k,
{
    lemma_nth_prime_exists(k);
    if k > 0 {
        lemma_nth_prime_lower_bound((k - 1) as nat);
        lemma_nth_prime_increasing((k - 1) as nat, k);
    }
}

/// Every number from two on is divisible by one of the primes, which is not above it.
pub proof fn lemma_nth_prime_divisor(n: int) -> (i: nat)
    requires
        n >= 2,
    ensures
        nth_prime(i) <= n,
        n % nth_prime(i) == 0,
{
    let q = lemma_prime_divisor(n);
    lemma_prime_is_nth(q);
    prime_count(q)
}

} // verus!
