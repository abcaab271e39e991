//! The symmetries of the 3j symbol: exchanging two columns, or changing the
//! sign of every projection, multiplies the symbol by -1 where the sum of the
//! angular momenta is odd, and leaves it otherwise.
//!
//! Each of these reads the series of Racah's formula from its other end.
use crate::exponents::lemma_product_by_agree;
use crate::legendre::legendre;
use crate::primality::nth_prime;
use crate::products::{lemma_factorials_exponent_of_six, lemma_factorials_exponent_of_three};
use crate::series::{alternating_sign, Series};
use crate::sums::{lemma_sum_reflected, lemma_sum_scaled};
use crate::symbol::Symbol;
use crate::wigner_3j::MAX_TOTAL_J;
use vstd::prelude::*;

verus! {

/// Whether `b` is the series `a` read from its other end: the term of
/// index `c - k` of `b` stands over the same factorials as the term of index
/// `k` of `a`.
pub open spec fn is_reflection(a: Series, b: Series, c: int) -> bool {
    &&& b.first() == c - a.last()
    &&& b.last() == c - a.first()
    &&& b.weight() == a.weight()
    &&& forall|k: int, p: int|
        a.first() <= k <= a.last() ==> #[trigger] a.term_exponent(k, p) == b.term_exponent(
            c - k,
            p,
        )
}

/// The sign of the term of index `c - k` is the sign of the term of index
/// `k` times the sign that goes with `c`.
pub proof fn lemma_alternating_sign(c: int, k: int)
    ensures
        alternating_sign(c - k) == alternating_sign(c) * alternating_sign(k),
        alternating_sign(c + k) == alternating_sign(c) * alternating_sign(k),
        alternating_sign(k) * alternating_sign(k) == 1,
        alternating_sign(-k) == alternating_sign(k),
{
    let s = alternating_sign(k);
    assert(s * s == 1) by (nonlinear_arith)
        requires
            s == 1 || s == -1,
    ;
    let t = alternating_sign(c);
    assert(t * s == if t == s {
        1int
    } else {
        -1int
    }) by (nonlinear_arith)
        requires
            s == 1 || s == -1,
            t == 1 || t == -1,
    ;
}

/// One of the terms up to the index `upto` has the common exponent.
pub proof fn lemma_common_exponent_attained(s: Series, upto: int, p: int) -> (k: int)
    requires
        s.first() <= upto,
    ensures
        s.first() <= k <= upto,
        s.term_exponent(k, p) == s.common_exponent_upto(upto, p),
    decreases upto - s.first(),
{
    if s.term_exponent(upto, p) >= s.common_exponent_upto(upto - 1, p) {
        upto
    } else {
        lemma_common_exponent_attained(s, upto - 1, p)
    }
}

/// A series read from its other end has the same common denominator.
pub proof fn lemma_reflection_common(a: Series, b: Series, c: int, p: int)
    requires
        is_reflection(a, b, c),
    ensures
        b.common_exponent(p) == a.common_exponent(p),
{
    if a.first() <= a.last() {
        let ka = lemma_common_exponent_attained(a, a.last(), p);
        let kb = lemma_common_exponent_attained(b, b.last(), p);
        assert(a.term_exponent(ka, p) == b.term_exponent(c - ka, p));
        b.lemma_common_exponent(c - ka, b.last(), p);
        let back = c - kb;
        assert(a.term_exponent(back, p) == b.term_exponent(c - back, p));
        a.lemma_common_exponent(back, a.last(), p);
    }
}

/// A series read from its other end has the same numerators, each at its
/// new index.
pub proof fn lemma_reflection_numerator(a: Series, b: Series, c: int, k: int)
    requires
        is_reflection(a, b, c),
        a.first() <= k <= a.last(),
    ensures
        b.numerator_value(c - k) == a.numerator_value(k),
{
    assert forall|i: nat| i < a.prime_bound() implies #[trigger] a.numerator_exponents(k)(i)
        == b.numerator_exponents(c - k)(i) by {
        let p = nth_prime(i);
        lemma_reflection_common(a, b, c, p);
        assert(a.term_exponent(k, p) == b.term_exponent(c - k, p));
    }
    lemma_product_by_agree(a.numerator_exponents(k), b.numerator_exponents(c - k), a.prime_bound());
}

/// The sum of a series read from its other end is the sum of the series,
/// times -1 where the two ends are an odd number apart.
pub proof fn lemma_reflection_sum(a: Series, b: Series, c: int)
    requires
        is_reflection(a, b, c),
    ensures
        b.sum() == alternating_sign(c) * a.sum(),
{
    let factor = alternating_sign(c);
    let scaled = |k: int| factor * a.terms()(k);
    assert forall|k: int| a.first() <= k <= a.last() implies #[trigger] scaled(k) == b.terms()(
        c - k,
    ) by {
        lemma_reflection_numerator(a, b, c, k);
        lemma_alternating_sign(c, k);
        let sign = alternating_sign(k);
        let value = a.numerator_value(k);
        assert(factor * (sign * value) == (factor * sign) * value) by (nonlinear_arith);
    }
    lemma_sum_reflected(scaled, b.terms(), c, a.first(), a.last());
    lemma_sum_scaled(a.terms(), scaled, factor, a.first(), a.last());
}

/// The exponent of a prime in the product under a term is the sum of its
/// exponents in the six factorials.
pub proof fn lemma_term_exponent(s: Series, k: int, p: int)
    requires
        s.first() <= k <= s.last(),
        s.weight() <= u32::MAX,
    ensures
        s.term_exponent(k, p) == legendre(k, p) + legendre(k - s.alpha1, p) + legendre(
            k - s.alpha2,
            p,
        ) + legendre(s.beta1 - k, p) + legendre(s.beta2 - k, p) + legendre(s.beta3 - k, p),
{
    s.lemma_term_arguments(k);
    lemma_factorials_exponent_of_six(s.term_arguments(k), p);
}

/// Whether a symbol is one that is evaluated, and not by the selection
/// rules alone.
pub open spec fn is_evaluated(symbol: Symbol) -> bool {
    &&& symbol.is_valid()
    &&& symbol.is_selected()
    &&& symbol.total() <= MAX_TOTAL_J
}

/// The exponent of a prime under the root of a symbol, from the
/// exponents in the factorials.
pub proof fn lemma_root_exponent(t: Symbol, p: int)
    requires
        is_evaluated(t),
    ensures
        t.root_exponent(p) == legendre(t.j1 + t.j2 - t.j3, p) + legendre(t.j1 - t.j2 + t.j3, p)
            + legendre(t.j2 + t.j3 - t.j1, p) - legendre(t.total() + 1, p) + legendre(
            t.j1 - t.m1,
            p,
        ) + legendre(t.j1 + t.m1, p) + legendre(t.j2 - t.m2, p) + legendre(t.j2 + t.m2, p)
            + legendre(t.j3 - t.m3, p) + legendre(t.j3 + t.m3, p) - 2 * t.series().common_exponent(
            p,
        ),
{
    lemma_factorials_exponent_of_three(t.triangle_arguments(), p);
    lemma_factorials_exponent_of_six(t.projection_arguments(), p);
}

/// With its first two columns exchanged, a symbol has its series read
/// from the other end.
pub proof fn lemma_exchange_12_reflects(t: Symbol)
    requires
        is_evaluated(t),
    ensures
        is_evaluated(t.swap12()),
        is_reflection(t.series(), t.swap12().series(), t.series().beta1),
{
    let a = t.series();
    let b = t.swap12().series();
    let c = a.beta1;
    assert forall|k: int, p: int| a.first() <= k <= a.last() implies #[trigger] a.term_exponent(
        k,
        p,
    ) == b.term_exponent(c - k, p) by {
        lemma_term_exponent(a, k, p);
        lemma_term_exponent(b, c - k, p);
    }
}

/// With its last two columns exchanged, a symbol has its series read from
/// the other end.
pub proof fn lemma_exchange_23_reflects(t: Symbol)
    requires
        is_evaluated(t),
    ensures
        is_evaluated(t.swap23()),
        is_reflection(t.series(), t.swap23().series(), t.series().beta2),
{
    let a = t.series();
    let b = t.swap23().series();
    let c = a.beta2;
    assert forall|k: int, p: int| a.first() <= k <= a.last() implies #[trigger] a.term_exponent(
        k,
        p,
    ) == b.term_exponent(c - k, p) by {
        lemma_term_exponent(a, k, p);
        lemma_term_exponent(b, c - k, p);
    }
}

/// With the sign of every projection changed, a symbol has its series
/// read from the other end.
pub proof fn lemma_negation_reflects(t: Symbol)
    requires
        is_evaluated(t),
    ensures
        is_evaluated(t.negated()),
        is_reflection(t.series(), t.negated().series(), t.series().beta1),
{
    let a = t.series();
    let b = t.negated().series();
    let c = a.beta1;
    assert forall|k: int, p: int| a.first() <= k <= a.last() implies #[trigger] a.term_exponent(
        k,
        p,
    ) == b.term_exponent(c - k, p) by {
        lemma_term_exponent(a, k, p);
        lemma_term_exponent(b, c - k, p);
    }
}

/// Whether `u` has the value of `t` times -1 where the sum of the angular
/// momenta is odd: the same number under the root, and the same sum of the
/// series up to that sign.
pub open spec fn is_odd_image(t: Symbol, u: Symbol) -> bool {
    &&& u.total() == t.total()
    &&& u.racah_sum() == alternating_sign(t.total()) * t.racah_sum()
    &&& forall|p: int| #[trigger] u.root_exponent(p) == t.root_exponent(p)
}

/// Racah's formula changes by the factor -1 to the power of the sum of the
/// angular momenta when the first two columns are exchanged.
pub proof fn lemma_racah_exchange_12(t: Symbol)
    requires
        is_evaluated(t),
    ensures
        is_evaluated(t.swap12()),
        is_odd_image(t, t.swap12()),
{
    let u = t.swap12();
    lemma_exchange_12_reflects(t);
    assert forall|p: int|
        #[trigger] u.root_exponent(p) + 2 * u.series().common_exponent(p) == t.root_exponent(p)
            + 2 * t.series().common_exponent(p) by {
        lemma_root_exponent(t, p);
        lemma_root_exponent(u, p);
    }
    lemma_odd_image(t, u, t.series().beta1);
}

/// Racah's formula changes by the same factor when the last two columns
/// are exchanged.
pub proof fn lemma_racah_exchange_23(t: Symbol)
    requires
        is_evaluated(t),
    ensures
        is_evaluated(t.swap23()),
        is_odd_image(t, t.swap23()),
{
    let u = t.swap23();
    lemma_exchange_23_reflects(t);
    assert forall|p: int|
        #[trigger] u.root_exponent(p) + 2 * u.series().common_exponent(p) == t.root_exponent(p)
            + 2 * t.series().common_exponent(p) by {
        lemma_root_exponent(t, p);
        lemma_root_exponent(u, p);
    }
    lemma_odd_image(t, u, t.series().beta2);
}

/// Racah's formula changes by the same factor when the sign of every
/// projection is changed.
pub proof fn lemma_racah_negation(t: Symbol)
    requires
        is_evaluated(t),
    ensures
        is_evaluated(t.negated()),
        is_odd_image(t, t.negated()),
{
    let u = t.negated();
    lemma_negation_reflects(t);
    assert forall|p: int|
        #[trigger] u.root_exponent(p) + 2 * u.series().common_exponent(p) == t.root_exponent(p)
            + 2 * t.series().common_exponent(p) by {
        lemma_root_exponent(t, p);
        lemma_root_exponent(u, p);
    }
    lemma_odd_image(t, u, t.series().beta1);
}

/// What a reflection of the series does to Racah's formula, where the
/// sign in front changes with it and the factorials under the root stay.
proof fn lemma_odd_image(t: Symbol, u: Symbol, c: int)
    requires
        is_evaluated(t),
        is_evaluated(u),
        u.total() == t.total(),
        is_reflection(t.series(), u.series(), c),
        (u.series().alpha1 - u.series().alpha2 + c) % 2 == (t.total() + t.series().alpha1
            - t.series().alpha2) % 2,
        forall|p: int|
            #[trigger] u.root_exponent(p) + 2 * u.series().common_exponent(p) == t.root_exponent(p)
                + 2 * t.series().common_exponent(p),
    ensures
        is_odd_image(t, u),
{
    let a = t.series();
    let b = u.series();
    lemma_reflection_sum(a, b, c);
    let du = b.alpha1 - b.alpha2;
    let dt = a.alpha1 - a.alpha2;
    lemma_alternating_sign(du, c);
    lemma_alternating_sign(t.total(), dt);
    assert(alternating_sign(du + c) == alternating_sign(t.total() + dt));
    let x = alternating_sign(du);
    let y = alternating_sign(c);
    let z = alternating_sign(t.total());
    let w = alternating_sign(dt);
    let sum = a.sum();
    assert(x * (y * sum) == z * (w * sum)) by (nonlinear_arith)
        requires
            x * y == z * w,
    ;
    assert forall|p: int| #[trigger] u.root_exponent(p) == t.root_exponent(p) by {
        lemma_reflection_common(a, b, c, p);
        assert(u.root_exponent(p) + 2 * u.series().common_exponent(p) == t.root_exponent(p) + 2
            * t.series().common_exponent(p));
    }
}

/// The factor of one step towards the canonical form: `e` where the step
/// is taken, and 1 where it is not.
pub open spec fn flip(taken: bool, e: int) -> int {
    if taken {
        e
    } else {
        1
    }
}

/// How many steps a step is: one where it is taken.
pub open spec fn step(taken: bool) -> int {
    if taken {
        1
    } else {
        0
    }
}

/// The factors of four steps multiply to 1 where `e` is 1, and otherwise to
/// the sign that goes with the number of steps taken. The product is its own
/// inverse.
proof fn lemma_flips_cancel(e: int, b1: bool, b2: bool, b3: bool, b4: bool)
    requires
        e == 1 || e == -1,
    ensures
        flip(b1, e) * flip(b2, e) * flip(b3, e) * flip(b4, e) == if e == 1 {
            1
        } else {
            alternating_sign(step(b1) + step(b2) + step(b3) + step(b4))
        },
        (flip(b1, e) * flip(b2, e) * flip(b3, e) * flip(b4, e)) * (flip(b1, e) * flip(b2, e)
            * flip(b3, e) * flip(b4, e)) == 1,
{
    let f1 = flip(b1, e);
    let f2 = flip(b2, e);
    let f3 = flip(b3, e);
    let f4 = flip(b4, e);
    let n = step(f1 == -1) + step(f2 == -1) + step(f3 == -1) + step(f4 == -1);
    let odd = n == 1 || n == 3;
    assert(f1 * f2 * f3 * f4 == flip(odd, -1) && (f1 * f2 * f3 * f4) * (f1 * f2 * f3 * f4) == 1)
        by (nonlinear_arith)
        requires
            f1 == 1 || f1 == -1,
            f2 == 1 || f2 == -1,
            f3 == 1 || f3 == -1,
            f4 == 1 || f4 == -1,
            odd == ((f1 == -1) != (f2 == -1)) != ((f3 == -1) != (f4 == -1)),
    ;
}

/// Bringing a symbol into the canonical form does not change what
/// Racah's formula gives for it, with the sign that the evaluation keeps: the
/// sum of the series with its sign is that of the symbol as it stands, and so
/// is the number under the root.
pub proof fn lemma_canonical_form(s: Symbol)
    requires
        is_evaluated(s),
    ensures
        is_evaluated(s.canonical()),
        s.signed_sum() == s.racah_sum(),
        forall|p: int| #[trigger] s.canonical().root_exponent(p) == s.root_exponent(p),
{
    reveal(Symbol::canonical);
    reveal(Symbol::reorder_sign);
    let e = alternating_sign(s.total());
    let once = s.sorted_once();
    let twice = s.sorted_twice();
    let sorted = s.sorted();
    let canonical = s.canonical();
    let r0 = s.racah_sum();
    let r1 = once.racah_sum();
    let r2 = twice.racah_sum();
    let r3 = sorted.racah_sum();
    let r4 = canonical.racah_sum();
    if s.j1 < s.j2 {
        lemma_racah_exchange_12(s);
    }
    assert(is_evaluated(once));
    if once.j2 < once.j3 {
        lemma_racah_exchange_23(once);
    }
    assert(is_evaluated(twice));
    if twice.j1 < twice.j2 {
        lemma_racah_exchange_12(twice);
    }
    assert(is_evaluated(sorted));
    if sorted.needs_negation() {
        lemma_racah_negation(sorted);
    }
    assert forall|p: int| #[trigger] canonical.root_exponent(p) == s.root_exponent(p) by {
        assert(once.root_exponent(p) == s.root_exponent(p));
        assert(twice.root_exponent(p) == once.root_exponent(p));
        assert(sorted.root_exponent(p) == twice.root_exponent(p));
        assert(canonical.root_exponent(p) == sorted.root_exponent(p));
    }
    let b1 = s.j1 < s.j2;
    let b2 = once.j2 < once.j3;
    let b3 = twice.j1 < twice.j2;
    let b4 = sorted.needs_negation();
    let sign = s.reorder_sign();
    assert(r1 == flip(b1, e) * r0);
    assert(r2 == flip(b2, e) * r1);
    assert(r3 == flip(b3, e) * r2);
    assert(r4 == flip(b4, e) * r3);
    lemma_flips_cancel(e, b1, b2, b3, b4);
    assert(sign == flip(b1, e) * flip(b2, e) * flip(b3, e) * flip(b4, e));
    let f1 = flip(b1, e);
    let f2 = flip(b2, e);
    let f3 = flip(b3, e);
    let f4 = flip(b4, e);
    assert(sign * r4 == r0) by (nonlinear_arith)
        requires
            r1 == f1 * r0,
            r2 == f2 * r1,
            r3 == f3 * r2,
            r4 == f4 * r3,
            sign == f1 * f2 * f3 * f4,
            sign * sign == 1,
    ;
    let phase = canonical.phase();
    let sum = canonical.series().sum();
    assert((sign * phase) * sum == sign * (phase * sum)) by (nonlinear_arith);
}

/// Whether the value of `u` is the value of `t` times `factor`: the sums
/// of their series, with the signs that the evaluation gives them, differ by
/// the factor, and the numbers under their roots are the same.
pub open spec fn is_multiple(t: Symbol, u: Symbol, factor: int) -> bool {
    &&& u.signed_sum() == factor * t.signed_sum()
    &&& forall|p: int| #[trigger]
        u.canonical().root_exponent(p) == t.canonical().root_exponent(p)
}

/// What the symmetries of Racah's formula mean for the evaluation.
proof fn lemma_multiple(t: Symbol, u: Symbol)
    requires
        is_evaluated(t),
        is_evaluated(u),
        is_odd_image(t, u),
    ensures
        is_multiple(t, u, alternating_sign(t.total())),
{
    lemma_canonical_form(t);
    lemma_canonical_form(u);
    assert forall|p: int| #[trigger]
        u.canonical().root_exponent(p) == t.canonical().root_exponent(p) by {
        assert(u.root_exponent(p) == t.root_exponent(p));
    }
}

/// Exchanging columns, or changing the sign of every projection, makes no
/// symbol valid that was not, lets none meet the selection rules that did
/// not, and leaves the sum of the angular momenta: where a symbol is zero or
/// has no value, so are the symbols that come from it.
pub proof fn lemma_rules_are_symmetric(symbol: Symbol)
    ensures
        symbol.swap12().is_valid() == symbol.is_valid(),
        symbol.swap23().is_valid() == symbol.is_valid(),
        symbol.negated().is_valid() == symbol.is_valid(),
        symbol.swap12().is_selected() == symbol.is_selected(),
        symbol.swap23().is_selected() == symbol.is_selected(),
        symbol.negated().is_selected() == symbol.is_selected(),
        symbol.swap12().total() == symbol.total(),
        symbol.swap23().total() == symbol.total(),
        symbol.negated().total() == symbol.total(),
{
}

/// The symbol with its first two columns exchanged is the symbol times -1
/// to the power of the sum of the angular momenta.
pub proof fn lemma_wigner_3j_exchange_12(symbol: Symbol)
    requires
        is_evaluated(symbol),
    ensures
        is_evaluated(symbol.swap12()),
        is_multiple(symbol, symbol.swap12(), alternating_sign(symbol.total())),
{
    lemma_racah_exchange_12(symbol);
    lemma_multiple(symbol, symbol.swap12());
}

/// The symbol with its last two columns exchanged is the symbol times -1
/// to the power of the sum of the angular momenta.
pub proof fn lemma_wigner_3j_exchange_23(symbol: Symbol)
    requires
        is_evaluated(symbol),
    ensures
        is_evaluated(symbol.swap23()),
        is_multiple(symbol, symbol.swap23(), alternating_sign(symbol.total())),
{
    lemma_racah_exchange_23(symbol);
    lemma_multiple(symbol, symbol.swap23());
}

/// The symbol with its first and last columns exchanged is the symbol
/// times -1 to the power of the sum of the angular momenta.
pub proof fn lemma_wigner_3j_exchange_13(symbol: Symbol)
    requires
        is_evaluated(symbol),
    ensures
        is_evaluated(symbol.swap12().swap23().swap12()),
        is_multiple(
            symbol,
            symbol.swap12().swap23().swap12(),
            alternating_sign(symbol.total()),
        ),
{
    let e = alternating_sign(symbol.total());
    let a = symbol.swap12();
    let b = a.swap23();
    let c = b.swap12();
    lemma_wigner_3j_exchange_12(symbol);
    lemma_wigner_3j_exchange_23(a);
    lemma_wigner_3j_exchange_12(b);
    let v = symbol.signed_sum();
    assert(e * (e * (e * v)) == e * v) by (nonlinear_arith)
        requires
            e == 1 || e == -1,
    ;
    assert forall|p: int| #[trigger]
        c.canonical().root_exponent(p) == symbol.canonical().root_exponent(p) by {
        assert(a.canonical().root_exponent(p) == symbol.canonical().root_exponent(p));
        assert(b.canonical().root_exponent(p) == a.canonical().root_exponent(p));
        assert(c.canonical().root_exponent(p) == b.canonical().root_exponent(p));
    }
}

/// The symbol with its columns moved around in a circle is the symbol.
pub proof fn lemma_wigner_3j_rotation(symbol: Symbol)
    requires
        is_evaluated(symbol),
    ensures
        is_evaluated(symbol.swap12().swap23()),
        is_multiple(symbol, symbol.swap12().swap23(), 1),
        is_evaluated(symbol.swap23().swap12()),
        is_multiple(symbol, symbol.swap23().swap12(), 1),
{
    let e = alternating_sign(symbol.total());
    let v = symbol.signed_sum();
    assert(e * (e * v) == 1 * v) by (nonlinear_arith)
        requires
            e == 1 || e == -1,
    ;
    let a = symbol.swap12();
    let b = a.swap23();
    lemma_wigner_3j_exchange_12(symbol);
    lemma_wigner_3j_exchange_23(a);
    assert forall|p: int| #[trigger]
        b.canonical().root_exponent(p) == symbol.canonical().root_exponent(p) by {
        assert(a.canonical().root_exponent(p) == symbol.canonical().root_exponent(p));
        assert(b.canonical().root_exponent(p) == a.canonical().root_exponent(p));
    }
    let c = symbol.swap23();
    let d = c.swap12();
    lemma_wigner_3j_exchange_23(symbol);
    lemma_wigner_3j_exchange_12(c);
    assert forall|p: int| #[trigger]
        d.canonical().root_exponent(p) == symbol.canonical().root_exponent(p) by {
        assert(c.canonical().root_exponent(p) == symbol.canonical().root_exponent(p));
        assert(d.canonical().root_exponent(p) == c.canonical().root_exponent(p));
    }
}

/// The symbol with the sign of every projection changed is the symbol
/// times -1 to the power of the sum of the angular momenta.
pub proof fn lemma_wigner_3j_negation(symbol: Symbol)
    requires
        is_evaluated(symbol),
    ensures
        is_evaluated(symbol.negated()),
        is_multiple(symbol, symbol.negated(), alternating_sign(symbol.total())),
{
    lemma_racah_negation(symbol);
    lemma_multiple(symbol, symbol.negated());
}

} // verus!
