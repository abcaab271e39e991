//! Lists of exponents read as products of prime powers: position `i` of a
//! list holds the power of the `i`-th prime.
use crate::primality::{lemma_nth_prime_lower_bound, nth_prime};
use vstd::arithmetic::mul::lemma_mul_strictly_positive;
use vstd::arithmetic::power::{lemma_pow0, lemma_pow_adds, lemma_pow_positive, pow};
use vstd::prelude::*;

verus! {

/// The exponent at position `i`, which is zero from the list's end on.
pub open spec fn exponent_at(e: Seq<u16>, i: int) -> nat {
    if 0 <= i < e.len() {
        e[i] as nat
    } else {
        0
    }
}

/// The product of the first `n` primes, each raised to its exponent in `e`.
pub open spec fn product_upto(e: Seq<u16>, n: nat) -> int
    decreases n,
{
    if n == 0 {
        1
    } else {
        product_upto(e, (n - 1) as nat) * pow(nth_prime((n - 1) as nat), exponent_at(e, n - 1))
    }
}

/// The product of the first `n` primes, the `i`-th of them raised to `f(i)`.
pub open spec fn product_by(f: spec_fn(nat) -> nat, n: nat) -> int
    decreases n,
{
    if n == 0 {
        1
    } else {
        product_by(f, (n - 1) as nat) * pow(nth_prime((n - 1) as nat), f((n - 1) as nat))
    }
}

/// The number that a list of exponents stands for.
pub open spec fn product_of(e: Seq<u16>) -> int {
    product_upto(e, e.len())
}

/// The list without its zeros at the end.
pub open spec fn trimmed(e: Seq<u16>) -> Seq<u16>
    decreases e.len(),
{
    if e.len() > 0 && e.last() == 0 {
        trimmed(e.drop_last())
    } else {
        e
    }
}

/// The list in the form in which equal numbers have equal lists: without
/// zeros at the end, but for the single zero that stands for one.
pub open spec fn simplified(e: Seq<u16>) -> Seq<u16> {
    if trimmed(e).len() == 0 {
        seq![0u16]
    } else {
        trimmed(e)
    }
}

/// Whether `e` is in the form that `simplified` gives.
pub open spec fn is_simplified(e: Seq<u16>) -> bool {
    e.len() >= 1 && (e.len() == 1 || e.last() != 0)
}

/// The greater of two lengths.
pub open spec fn longer(a: Seq<u16>, b: Seq<u16>) -> nat {
    if a.len() >= b.len() {
        a.len()
    } else {
        b.len()
    }
}

/// The list as long as the longer of `a` and `b` that holds at each position
/// the sum of their exponents.
pub open spec fn pointwise_sum(a: Seq<u16>, b: Seq<u16>) -> Seq<u16> {
    Seq::new(longer(a, b), |i: int| (exponent_at(a, i) + exponent_at(b, i)) as u16)
}

/// The list as long as the longer of `a` and `b` that holds at each position
/// the greater of their exponents.
pub open spec fn pointwise_max(a: Seq<u16>, b: Seq<u16>) -> Seq<u16> {
    Seq::new(
        longer(a, b),
        |i: int|
            if exponent_at(a, i) >= exponent_at(b, i) {
                exponent_at(a, i) as u16
            } else {
                exponent_at(b, i) as u16
            },
    )
}

/// The list as long as the longer of `a` and `b` that holds at each position
/// the exponent of `a` less the one of `b`.
pub open spec fn pointwise_difference(a: Seq<u16>, b: Seq<u16>) -> Seq<u16> {
    Seq::new(longer(a, b), |i: int| (exponent_at(a, i) - exponent_at(b, i)) as u16)
}

/// The list as long as `a` that holds at each position the exponent of `a`
/// less the smaller of the exponents of `a` and `b`: what is left of `a` when
/// the common factors of the two numbers are taken out.
pub open spec fn pointwise_cancel(a: Seq<u16>, b: Seq<u16>) -> Seq<u16> {
    Seq::new(
        a.len(),
        |i: int|
            if exponent_at(a, i) >= exponent_at(b, i) {
                (exponent_at(a, i) - exponent_at(b, i)) as u16
            } else {
                0u16
            },
    )
}

/// The list as long as `a` that holds at each position the smaller of the
/// exponents of `a` and `b`.
pub open spec fn pointwise_min(a: Seq<u16>, b: Seq<u16>) -> Seq<u16> {
    Seq::new(
        a.len(),
        |i: int|
            if exponent_at(a, i) >= exponent_at(b, i) {
                exponent_at(b, i) as u16
            } else {
                exponent_at(a, i) as u16
            },
    )
}

/// Whether the exponents of `a` and `b` can be added at every position
/// without leaving 16 bits.
pub open spec fn sum_fits(a: Seq<u16>, b: Seq<u16>) -> bool {
    forall|i: int| #[trigger] exponent_at(a, i) + exponent_at(b, i) <= u16::MAX
}

/// Whether `c` holds, position by position, the sum of `a` and `b`.
pub open spec fn is_sum(a: Seq<u16>, b: Seq<u16>, c: Seq<u16>) -> bool {
    forall|i: int| #[trigger] exponent_at(c, i) == exponent_at(a, i) + exponent_at(b, i)
}

/// Whether `c` holds, position by position, the greater of `a` and `b`.
pub open spec fn is_maximum(a: Seq<u16>, b: Seq<u16>, c: Seq<u16>) -> bool {
    forall|i: int| #[trigger]
        exponent_at(c, i) == if exponent_at(a, i) >= exponent_at(b, i) {
            exponent_at(a, i)
        } else {
            exponent_at(b, i)
        }
}

/// Whether every exponent of `b` is at most the one of `a` at its position.
pub open spec fn is_within(b: Seq<u16>, a: Seq<u16>) -> bool {
    forall|i: int| #[trigger] exponent_at(b, i) <= exponent_at(a, i)
}

/// Where the sums fit, `pointwise_sum` is the sum.
pub proof fn lemma_pointwise_sum(a: Seq<u16>, b: Seq<u16>)
    requires
        sum_fits(a, b),
    ensures
        is_sum(a, b, pointwise_sum(a, b)),
        product_of(pointwise_sum(a, b)) == product_of(a) * product_of(b),
{
    let c = pointwise_sum(a, b);
    assert forall|i: int| #[trigger] exponent_at(c, i) == exponent_at(a, i) + exponent_at(b, i) by {
        assert(exponent_at(a, i) + exponent_at(b, i) <= u16::MAX);
    }
    lemma_product_sum(a, b, c);
}

/// The sum of two lists in simplified form is in simplified form.
pub proof fn lemma_pointwise_sum_simplified(a: Seq<u16>, b: Seq<u16>)
    requires
        sum_fits(a, b),
        is_simplified(a),
        is_simplified(b),
    ensures
        is_simplified(pointwise_sum(a, b)),
{
    let c = pointwise_sum(a, b);
    let last = c.len() - 1;
    assert(exponent_at(a, last) + exponent_at(b, last) <= u16::MAX);
}

/// `pointwise_max` is the maximum, and stands for a common multiple of the
/// two numbers.
pub proof fn lemma_pointwise_max(a: Seq<u16>, b: Seq<u16>)
    ensures
        is_maximum(a, b, pointwise_max(a, b)),
        is_within(a, pointwise_max(a, b)),
        is_within(b, pointwise_max(a, b)),
        product_of(pointwise_max(a, b)) == product_of(a) * product_of(
            pointwise_difference(pointwise_max(a, b), a),
        ),
        product_of(pointwise_max(a, b)) == product_of(b) * product_of(
            pointwise_difference(pointwise_max(a, b), b),
        ),
{
    let c = pointwise_max(a, b);
    assert forall|i: int| #[trigger]
        exponent_at(c, i) == if exponent_at(a, i) >= exponent_at(b, i) {
            exponent_at(a, i)
        } else {
            exponent_at(b, i)
        } by {}
    assert forall|i: int| #[trigger] exponent_at(a, i) <= exponent_at(c, i) by {}
    assert forall|i: int| #[trigger] exponent_at(b, i) <= exponent_at(c, i) by {}
    lemma_pointwise_difference(c, a);
    lemma_pointwise_difference(c, b);
}

/// Where `b` is within `a`, `pointwise_difference` undoes the sum: the number
/// of `a` is the number of `b` times the number of the difference.
pub proof fn lemma_pointwise_difference(a: Seq<u16>, b: Seq<u16>)
    requires
        is_within(b, a),
    ensures
        is_sum(b, pointwise_difference(a, b), a),
        product_of(a) == product_of(b) * product_of(pointwise_difference(a, b)),
{
    let d = pointwise_difference(a, b);
    assert forall|i: int| #[trigger] exponent_at(a, i) == exponent_at(b, i) + exponent_at(d, i) by {
        assert(exponent_at(b, i) <= exponent_at(a, i));
    }
    lemma_product_sum(b, d, a);
}

/// Taking the common factors out of two numbers leaves their ratio: the
/// products across are the same. At no position do both lists keep an exponent.
pub proof fn lemma_pointwise_cancel(a: Seq<u16>, b: Seq<u16>)
    ensures
        product_of(a) * product_of(pointwise_cancel(b, a)) == product_of(b) * product_of(
            pointwise_cancel(a, b),
        ),
        forall|i: int| #[trigger]
            exponent_at(pointwise_cancel(a, b), i) == if exponent_at(a, i) >= exponent_at(b, i) {
                exponent_at(a, i) - exponent_at(b, i)
            } else {
                0
            },
{
    let ca = pointwise_cancel(a, b);
    let cb = pointwise_cancel(b, a);
    let m = pointwise_min(a, b);
    let n = pointwise_min(b, a);
    assert forall|i: int| #[trigger] exponent_at(a, i) == exponent_at(ca, i) + exponent_at(m, i) by {}
    assert forall|i: int| #[trigger] exponent_at(b, i) == exponent_at(cb, i) + exponent_at(n, i) by {}
    assert forall|i: int| exponent_at(m, i) == exponent_at(n, i) by {}
    lemma_product_sum(ca, m, a);
    lemma_product_sum(cb, n, b);
    lemma_product_agree(m, n);
    let pa = product_of(ca);
    let pb = product_of(cb);
    let pm = product_of(m);
    assert((pa * pm) * pb == (pb * pm) * pa) by (nonlinear_arith);
}

/// A power of a prime is positive.
pub proof fn lemma_prime_power_positive(i: nat, x: nat)
    ensures
        pow(nth_prime(i), x) >= 1,
{
    lemma_nth_prime_lower_bound(i);
    lemma_pow_positive(nth_prime(i), x);
}

/// The product over the first positions of a list is positive.
pub proof fn lemma_product_upto_positive(e: Seq<u16>, n: nat)
    ensures
        product_upto(e, n) >= 1,
    decreases n,
{
    if n > 0 {
        lemma_product_upto_positive(e, (n - 1) as nat);
        lemma_prime_power_positive((n - 1) as nat, exponent_at(e, n - 1));
        lemma_mul_strictly_positive(
            product_upto(e, (n - 1) as nat),
            pow(nth_prime((n - 1) as nat), exponent_at(e, n - 1)),
        );
    }
}

/// A list of exponents stands for a positive number.
pub proof fn lemma_product_positive(e: Seq<u16>)
    ensures
        product_of(e) >= 1,
{
    lemma_product_upto_positive(e, e.len());
}

/// Past the end of the list the product does not change.
pub proof fn lemma_product_upto_beyond(e: Seq<u16>, n: nat)
    requires
        n >= e.len(),
    ensures
        product_upto(e, n) == product_of(e),
    decreases n,
{
    if n > e.len() {
        lemma_product_upto_beyond(e, (n - 1) as nat);
        lemma_pow0(nth_prime((n - 1) as nat));
    }
}

/// Lists that agree on the first `n` positions have the same product over them.
pub proof fn lemma_product_upto_agree(a: Seq<u16>, b: Seq<u16>, n: nat)
    requires
        forall|i: int| 0 <= i < n ==> exponent_at(a, i) == exponent_at(b, i),
    ensures
        product_upto(a, n) == product_upto(b, n),
    decreases n,
{
    if n > 0 {
        lemma_product_upto_agree(a, b, (n - 1) as nat);
    }
}

/// Lists with the same exponent at every position stand for the same number.
pub proof fn lemma_product_agree(a: Seq<u16>, b: Seq<u16>)
    requires
        forall|i: int| exponent_at(a, i) == exponent_at(b, i),
    ensures
        product_of(a) == product_of(b),
{
    let n = if a.len() >= b.len() {
        a.len()
    } else {
        b.len()
    };
    lemma_product_upto_agree(a, b, n);
    lemma_product_upto_beyond(a, n);
    lemma_product_upto_beyond(b, n);
}

/// Adding exponents position by position multiplies the products over the
/// first positions.
pub proof fn lemma_product_upto_sum(a: Seq<u16>, b: Seq<u16>, c: Seq<u16>, n: nat)
    requires
        is_sum(a, b, c),
    ensures
        product_upto(c, n) == product_upto(a, n) * product_upto(b, n),
    decreases n,
{
    if n > 0 {
        let m = (n - 1) as nat;
        lemma_product_upto_sum(a, b, c, m);
        let p = nth_prime(m);
        let x = exponent_at(a, m as int);
        let y = exponent_at(b, m as int);
        assert(exponent_at(c, m as int) == x + y);
        lemma_pow_adds(p, x, y);
        let pa = product_upto(a, m);
        let pb = product_upto(b, m);
        let qa = pow(p, x);
        let qb = pow(p, y);
        assert((pa * pb) * (qa * qb) == (pa * qa) * (pb * qb)) by (nonlinear_arith);
    }
}

/// Adding exponents position by position multiplies the numbers.
pub proof fn lemma_product_sum(a: Seq<u16>, b: Seq<u16>, c: Seq<u16>)
    requires
        is_sum(a, b, c),
    ensures
        product_of(c) == product_of(a) * product_of(b),
{
    let n = if a.len() >= b.len() {
        if a.len() >= c.len() {
            a.len()
        } else {
            c.len()
        }
    } else if b.len() >= c.len() {
        b.len()
    } else {
        c.len()
    };
    lemma_product_upto_sum(a, b, c, n);
    lemma_product_upto_beyond(a, n);
    lemma_product_upto_beyond(b, n);
    lemma_product_upto_beyond(c, n);
}

/// Exponents that agree on the first `n` primes give the same product.
pub proof fn lemma_product_by_agree(f: spec_fn(nat) -> nat, g: spec_fn(nat) -> nat, n: nat)
    requires
        forall|i: nat| i < n ==> #[trigger] f(i) == g(i),
    ensures
        product_by(f, n) == product_by(g, n),
    decreases n,
{
    if n > 0 {
        lemma_product_by_agree(f, g, (n - 1) as nat);
        assert(f((n - 1) as nat) == g((n - 1) as nat));
    }
}

/// Adding exponents prime by prime multiplies the products.
pub proof fn lemma_product_by_sum(
    f: spec_fn(nat) -> nat,
    g: spec_fn(nat) -> nat,
    h: spec_fn(nat) -> nat,
    n: nat,
)
    requires
        forall|i: nat| i < n ==> #[trigger] h(i) == f(i) + g(i),
    ensures
        product_by(h, n) == product_by(f, n) * product_by(g, n),
    decreases n,
{
    if n > 0 {
        let m = (n - 1) as nat;
        lemma_product_by_sum(f, g, h, m);
        let p = nth_prime(m);
        assert(h(m) == f(m) + g(m));
        lemma_pow_adds(p, f(m), g(m));
        let pf = product_by(f, m);
        let pg = product_by(g, m);
        let qf = pow(p, f(m));
        let qg = pow(p, g(m));
        assert((pf * pg) * (qf * qg) == (pf * qf) * (pg * qg)) by (nonlinear_arith);
    }
}

/// Exponents that are zero for the first `n` primes give the product 1.
pub proof fn lemma_product_by_zero(f: spec_fn(nat) -> nat, n: nat)
    requires
        forall|i: nat| i < n ==> #[trigger] f(i) == 0,
    ensures
        product_by(f, n) == 1,
    decreases n,
{
    if n > 0 {
        lemma_product_by_zero(f, (n - 1) as nat);
        assert(f((n - 1) as nat) == 0);
        lemma_pow0(nth_prime((n - 1) as nat));
    }
}

/// Exponents that are 1 for the `j`-th prime and zero for the others give
/// that prime.
pub proof fn lemma_product_by_single(f: spec_fn(nat) -> nat, j: nat, n: nat)
    requires
        j < n,
        forall|i: nat| i < n ==> #[trigger] f(i) == if i == j {
            1nat
        } else {
            0nat
        },
    ensures
        product_by(f, n) == nth_prime(j),
    decreases n,
{
    let m = (n - 1) as nat;
    assert(f(m) == if m == j {
        1nat
    } else {
        0nat
    });
    if m == j {
        lemma_product_by_zero(f, m);
        vstd::arithmetic::power::lemma_pow1(nth_prime(m));
    } else {
        lemma_product_by_single(f, j, m);
        lemma_pow0(nth_prime(m));
    }
}

/// Primes with the exponent zero add nothing to the product.
pub proof fn lemma_product_by_beyond(f: spec_fn(nat) -> nat, n: nat, m: nat)
    requires
        n <= m,
        forall|i: nat| n <= i < m ==> #[trigger] f(i) == 0,
    ensures
        product_by(f, m) == product_by(f, n),
    decreases m,
{
    if n < m {
        lemma_product_by_beyond(f, n, (m - 1) as nat);
        assert(f((m - 1) as nat) == 0);
        lemma_pow0(nth_prime((m - 1) as nat));
    }
}

/// The exponents that a list holds, as a function of the position.
pub open spec fn exponents_of(e: Seq<u16>) -> spec_fn(nat) -> nat {
    |i: nat| exponent_at(e, i as int)
}

/// The product over a list is the product by the exponents that it holds.
pub proof fn lemma_product_upto_by(e: Seq<u16>, n: nat)
    ensures
        product_upto(e, n) == product_by(exponents_of(e), n),
    decreases n,
{
    if n > 0 {
        lemma_product_upto_by(e, (n - 1) as nat);
    }
}

/// An exponent more at the end multiplies the number by one more prime power.
pub proof fn lemma_product_push(e: Seq<u16>, x: u16)
    ensures
        product_of(e.push(x)) == product_of(e) * pow(nth_prime(e.len()), x as nat),
{
    lemma_product_upto_agree(e, e.push(x), e.len());
}

/// Trimming leaves every exponent where it is.
pub proof fn lemma_trimmed(e: Seq<u16>)
    ensures
        forall|i: int| exponent_at(trimmed(e), i) == exponent_at(e, i),
        trimmed(e).len() <= e.len(),
        trimmed(e).len() == 0 || trimmed(e).last() != 0,
        trimmed(e) == e.subrange(0, trimmed(e).len() as int),
    decreases e.len(),
{
    if e.len() > 0 && e.last() == 0 {
        let d = e.drop_last();
        lemma_trimmed(d);
        assert(trimmed(e) =~= e.subrange(0, trimmed(e).len() as int));
        assert forall|i: int| exponent_at(trimmed(e), i) == exponent_at(e, i) by {
            assert(exponent_at(trimmed(d), i) == exponent_at(d, i));
        }
    } else {
        assert(e =~= e.subrange(0, e.len() as int));
    }
}

/// Simplifying leaves every exponent where it is, and so the number.
pub proof fn lemma_simplified(e: Seq<u16>)
    ensures
        forall|i: int| exponent_at(simplified(e), i) == exponent_at(e, i),
        product_of(simplified(e)) == product_of(e),
        is_simplified(simplified(e)),
{
    lemma_trimmed(e);
    lemma_product_agree(simplified(e), e);
}

/// Lists in simplified form that hold the same exponent at every position
/// are the same list.
pub proof fn lemma_simplified_unique(a: Seq<u16>, b: Seq<u16>)
    requires
        is_simplified(a),
        is_simplified(b),
        forall|i: int| exponent_at(a, i) == exponent_at(b, i),
    ensures
        a == b,
{
    if a.len() > b.len() {
        assert(exponent_at(a, a.len() - 1) == exponent_at(b, a.len() - 1));
    } else if b.len() > a.len() {
        assert(exponent_at(a, b.len() - 1) == exponent_at(b, b.len() - 1));
    }
    assert forall|i: int| 0 <= i < a.len() implies a[i] == b[i] by {
        assert(exponent_at(a, i) == exponent_at(b, i));
    }
    assert(a =~= b);
}

/// A list in simplified form is left as it is.
pub proof fn lemma_simplified_fixed(e: Seq<u16>)
    requires
        is_simplified(e),
    ensures
        simplified(e) == e,
{
    reveal_with_fuel(trimmed, 2);
    if e.last() == 0 {
        assert(e.drop_last() =~= Seq::<u16>::empty());
        assert(e =~= seq![0u16]);
    }
}

} // verus!
