//! Integers held as a sign and the exponents of their prime factors, which
//! are multiplied and divided exactly however large they are.
use crate::exponents::{
    exponent_at, is_simplified, is_within, lemma_pointwise_difference, lemma_pointwise_sum,
    lemma_simplified, lemma_trimmed, longer, pointwise_difference, pointwise_max, pointwise_sum,
    product_of, simplified, sum_fits, trimmed,
};
use crate::factors::{exponent_list, Factors};
use crate::primality::{
    lemma_divides_transitive, lemma_nth_prime_divisor, lemma_nth_prime_exists,
    lemma_nth_prime_increasing, lemma_product_divisible, nth_prime,
};
use crate::primes::Primes;
use crate::valuation::{lemma_valuation_of_product, valuation};
use vstd::arithmetic::power::{lemma_pow0, lemma_pow1, lemma_pow_adds, lemma_pow_positive, pow};
use vstd::arithmetic::power2::{lemma2_to64, lemma_pow2_strictly_increases, lemma_pow2_unfold, pow2};
use vstd::prelude::*;

verus! {

/// The prime factorization of an integer of any size.
#[derive(Debug, PartialEq)]
pub struct PrimeFactorization {
    /// The sign of the integer: 1, 0 or -1.
    pub sign: i8,
    /// The exponents: the integer is `sign` times the product, over the
    /// positions `i`, of the `i`-th prime raised to the exponent at `i`.
    pub factors: Factors,
}

/// Why a division gives no result.
#[derive(Debug, PartialEq, Eq, Clone, Copy)]
pub enum DivisionError {
    /// The divisor is zero.
    DivisionByZero,
    /// The divisor holds a prime to a higher power than the dividend: the
    /// quotient is no integer.
    NonExactDivision,
}

impl View for PrimeFactorization {
    type V = Seq<u16>;

    /// The exponents, first prime first.
    open spec fn view(&self) -> Seq<u16> {
        exponent_list(self.factors)
    }
}

impl Clone for PrimeFactorization {
    fn clone(&self) -> (copy: Self)
        ensures
            copy.sign == self.sign,
            copy@ == self@,
    {
        PrimeFactorization { sign: self.sign, factors: self.factors.duplicate() }
    }
}

/// The primes with an exponent other than zero among the first `n` of a
/// list, each with its exponent, in the order of the primes.
pub open spec fn prime_powers_upto(e: Seq<u16>, n: nat) -> Seq<(u32, u16)>
    decreases n,
{
    if n == 0 {
        Seq::empty()
    } else if exponent_at(e, n - 1) == 0 {
        prime_powers_upto(e, (n - 1) as nat)
    } else {
        prime_powers_upto(e, (n - 1) as nat).push((nth_prime((n - 1) as nat) as u32, e[n - 1]))
    }
}

/// The product of two signs.
fn sign_product(a: i8, b: i8) -> (product: i8)
    requires
        -1 <= a <= 1,
        -1 <= b <= 1,
    ensures
        product == a * b,
        -1 <= product <= 1,
        product == 0 <==> a == 0 || b == 0,
{
    assert(a * b == if a == 0 || b == 0 {
        0int
    } else if a == b {
        1int
    } else {
        -1int
    }) by (nonlinear_arith)
        requires
            -1 <= a <= 1,
            -1 <= b <= 1,
    ;
    if a == 0 || b == 0 {
        0
    } else if a == b {
        1
    } else {
        -1
    }
}

impl PrimeFactorization {
    /// The sign is one of 1, 0 and -1.
    pub open spec fn wf(&self) -> bool {
        -1 <= self.sign <= 1
    }

    /// The integer that the factorization stands for.
    pub open spec fn value(&self) -> int {
        self.sign * product_of(self@)
    }

    /// Whether the factorization is in the form in which equal integers have
    /// equal factorizations: no exponents for zero, a single zero exponent for
    /// 1 and -1, and otherwise no zero exponent at the end.
    pub open spec fn is_canonical(&self) -> bool {
        if self.sign == 0 {
            self@.len() == 0
        } else {
            is_simplified(self@)
        }
    }

    /// The prime factors of the integer: each prime with an exponent other
    /// than zero, and the exponent, in the order of the primes. There is no
    /// list where a prime with an exponent does not fit in 32 bits.
    pub fn prime_powers(&self, primes: &mut Primes) -> (powers: Option<Vec<(u32, u16)>>)
        requires
            old(primes).wf(),
        ensures
            final(primes).wf(),
            final(primes).known() >= old(primes).known(),
            powers.is_some() <==> forall|i: nat|
                exponent_at(self@, i as int) != 0 ==> #[trigger] nth_prime(i) <= u32::MAX,
            powers matches Some(list) ==> list@ == prime_powers_upto(self@, self@.len()),
    {
        let mut list: Vec<(u32, u16)> = Vec::new();
        let len = self.factors.len();
        let mut i: usize = 0;
        while i < len
            invariant
                primes.wf(),
                primes.known() >= old(primes).known(),
                i <= len,
                len == self@.len(),
                list@ == prime_powers_upto(self@, i as nat),
                forall|j: nat|
                    j < i && exponent_at(self@, j as int) != 0 ==> #[trigger] nth_prime(j)
                        <= u32::MAX,
            decreases len - i,
        {
            let exponent = self.factors.get(i);
            if exponent != 0 {
                match primes.checked_get(i) {
                    Some(prime) => {
                        list.push((prime, exponent));
                    },
                    None => {
                        assert(exponent_at(self@, (i as nat) as int) != 0);
                        return None;
                    },
                }
            }
            i += 1;
        }
        Some(list)
    }

    /// The factorization of zero.
    pub fn zero() -> (zero: PrimeFactorization)
        ensures
            zero.sign == 0,
            zero@ == Seq::<u16>::empty(),
            zero.is_canonical(),
    {
        PrimeFactorization { sign: 0, factors: Factors::new() }
    }

    /// The factorization of 1.
    pub fn one() -> (one: PrimeFactorization)
        ensures
            one.sign == 1,
            one@ == seq![0u16],
            one.value() == 1,
            one.is_canonical(),
    {
        let mut factors = Factors::new();
        factors.push(0);
        let one = PrimeFactorization { sign: 1, factors };
        proof {
            assert(one@ =~= seq![0u16]);
            lemma_simplified(Seq::<u16>::empty());
            reveal_with_fuel(trimmed, 2);
            assert(product_of(Seq::<u16>::empty()) == 1) by {
                reveal_with_fuel(crate::exponents::product_upto, 2);
            }
        }
        one
    }

    /// The factorization of -1.
    pub fn minus_one() -> (minus_one: PrimeFactorization)
        ensures
            minus_one.sign == -1,
            minus_one@ == seq![0u16],
            minus_one.value() == -1,
            minus_one.is_canonical(),
    {
        let one = PrimeFactorization::one();
        PrimeFactorization { sign: -1, factors: one.factors }
    }

    /// Brings the exponents of a factorization that is not zero into the
    /// canonical form: the zeros at the end go, but for the single one that
    /// stands for 1 or -1. The integer stays what it is.
    pub fn simplify_factors(&mut self)
        ensures
            final(self).sign == old(self).sign,
            final(self)@ == if old(self).sign == 0 {
                old(self)@
            } else {
                simplified(old(self)@)
            },
            final(self).value() == old(self).value(),
    {
        if self.sign == 0 {
            return ;
        }
        proof {
            lemma_trimmed(self@);
            lemma_simplified(self@);
        }
        let mut len = self.factors.len();
        while len > 0 && self.factors.get(len - 1) == 0
            invariant
                len == self@.len(),
                trimmed(self@) == trimmed(old(self)@),
                self.sign == old(self).sign,
            decreases len,
        {
            self.factors.pop();
            len -= 1;
        }
        if len == 0 {
            self.factors.push(0);
            assert(self@ =~= seq![0u16]);
        }
    }

    /// Sets the factorization to the least common multiple of itself and
    /// `other`: at each position the greater exponent stays. The sign becomes
    /// the product of the two signs.
    pub fn least_common_multiple(&mut self, other: &PrimeFactorization)
        requires
            old(self).wf(),
            other.wf(),
        ensures
            final(self).wf(),
            final(self).sign == old(self).sign * other.sign,
            final(self)@ == pointwise_max(old(self)@, other@),
    {
        self.sign = sign_product(self.sign, other.sign);
        let n = other.factors.len();
        if n > self.factors.len() {
            self.factors.resize(n, 0);
        }
        let mut i: usize = 0;
        while i < n
            invariant
                i <= n,
                n == other@.len(),
                self.sign == old(self).sign * other.sign,
                self.wf(),
                self@.len() == longer(old(self)@, other@),
                forall|j: int|
                    0 <= j < i ==> #[trigger] self@[j] == pointwise_max(old(self)@, other@)[j],
                forall|j: int|
                    i <= j < self@.len() ==> #[trigger] self@[j] == exponent_at(old(self)@, j),
            decreases n - i,
        {
            let mine = self.factors.get(i);
            let theirs = other.factors.get(i);
            if theirs > mine {
                self.factors.set(i, theirs);
            }
            i += 1;
        }
        assert(self@ =~= pointwise_max(old(self)@, other@));
    }

    /// Multiplies the factorization by `rhs`: the exponents are added
    /// position by position, and the product with zero is zero.
    pub fn mul_assign(&mut self, rhs: &PrimeFactorization)
        requires
            old(self).wf(),
            rhs.wf(),
            sum_fits(old(self)@, rhs@),
        ensures
            final(self).wf(),
            final(self).sign == old(self).sign * rhs.sign,
            final(self)@ == if final(self).sign == 0 {
                Seq::<u16>::empty()
            } else {
                pointwise_sum(old(self)@, rhs@)
            },
            final(self).value() == old(self).value() * rhs.value(),
            old(self).is_canonical() && rhs.is_canonical() ==> final(self).is_canonical(),
    {
        self.sign = sign_product(self.sign, rhs.sign);
        if self.sign == 0 {
            self.factors.clear();
            proof {
                let a = old(self).value();
                let b = rhs.value();
                assert(a * b == 0) by (nonlinear_arith)
                    requires
                        a == 0 || b == 0,
                ;
            }
            return ;
        }
        let n = rhs.factors.len();
        if self.factors.len() < n {
            self.factors.resize(n, 0);
        }
        let mut i: usize = 0;
        while i < n
            invariant
                i <= n,
                n == rhs@.len(),
                sum_fits(old(self)@, rhs@),
                self.sign == old(self).sign * rhs.sign,
                self.wf(),
                self@.len() == longer(old(self)@, rhs@),
                forall|j: int|
                    0 <= j < i ==> #[trigger] self@[j] == pointwise_sum(old(self)@, rhs@)[j],
                forall|j: int|
                    i <= j < self@.len() ==> #[trigger] self@[j] == exponent_at(old(self)@, j),
            decreases n - i,
        {
            let mine = self.factors.get(i);
            let theirs = rhs.factors.get(i);
            assert(exponent_at(old(self)@, i as int) + exponent_at(rhs@, i as int) <= u16::MAX);
            self.factors.set(i, mine + theirs);
            i += 1;
        }
        proof {
            assert(self@ =~= pointwise_sum(old(self)@, rhs@));
            lemma_pointwise_sum(old(self)@, rhs@);
            if old(self).is_canonical() && rhs.is_canonical() {
                crate::exponents::lemma_pointwise_sum_simplified(old(self)@, rhs@);
            }
            let a = product_of(old(self)@);
            let b = product_of(rhs@);
            let s = old(self).sign as int;
            let t = rhs.sign as int;
            assert((s * t) * (a * b) == (s * a) * (t * b)) by (nonlinear_arith);
        }
    }

    /// The product of two factorizations.
    pub fn mul(self, rhs: PrimeFactorization) -> (product: PrimeFactorization)
        requires
            self.wf(),
            rhs.wf(),
            sum_fits(self@, rhs@),
        ensures
            product.wf(),
            product.sign == self.sign * rhs.sign,
            product@ == if product.sign == 0 {
                Seq::<u16>::empty()
            } else {
                pointwise_sum(self@, rhs@)
            },
            product.value() == self.value() * rhs.value(),
            self.is_canonical() && rhs.is_canonical() ==> product.is_canonical(),
    {
        let mut product = self;
        product.mul_assign(&rhs);
        product
    }

    /// Divides the factorization by `rhs`, which must divide it exactly:
    /// the exponents are subtracted position by position and the result is
    /// brought into the canonical form. Zero divided by anything but zero
    /// stays zero. Where the division fails, the factorization is left as it was.
    pub fn div_assign(&mut self, rhs: &PrimeFactorization) -> (result: Result<(), DivisionError>)
        requires
            old(self).wf(),
            rhs.wf(),
        ensures
            final(self).wf(),
            result == PrimeFactorization::division_outcome(*old(self), *rhs),
            result.is_err() || old(self).sign == 0 ==> *final(self) == *old(self),
            result.is_ok() && old(self).sign != 0 ==> {
                &&& final(self).sign == old(self).sign * rhs.sign
                &&& final(self)@ == simplified(pointwise_difference(old(self)@, rhs@))
                &&& final(self).is_canonical()
            },
            result.is_ok() ==> final(self).value() * rhs.value() == old(self).value(),
    {
        if rhs.sign == 0 {
            return Err(DivisionError::DivisionByZero);
        }
        if self.sign == 0 {
            assert(0 * rhs.value() == 0);
            return Ok(());
        }
        let n = rhs.factors.len();
        let len = self.factors.len();
        let mut i: usize = 0;
        while i < n
            invariant
                i <= n,
                n == rhs@.len(),
                len == self@.len(),
                *self == *old(self),
                self.wf(),
                self.sign != 0,
                rhs.sign != 0,
                forall|j: int| 0 <= j < i ==> exponent_at(rhs@, j) <= exponent_at(self@, j),
            decreases n - i,
        {
            let mine = if i < len {
                self.factors.get(i)
            } else {
                0
            };
            if rhs.factors.get(i) > mine {
                assert(exponent_at(rhs@, i as int) > exponent_at(self@, i as int));
                return Err(DivisionError::NonExactDivision);
            }
            i += 1;
        }
        assert(is_within(rhs@, self@));
        self.sign = sign_product(self.sign, rhs.sign);
        if len < n {
            self.factors.resize(n, 0);
        }
        let mut i: usize = 0;
        while i < n
            invariant
                i <= n,
                n == rhs@.len(),
                is_within(rhs@, old(self)@),
                self.sign == old(self).sign * rhs.sign,
                self.wf(),
                old(self).sign != 0,
                rhs.sign != 0,
                self@.len() == longer(old(self)@, rhs@),
                forall|j: int|
                    0 <= j < i ==> #[trigger] self@[j] == pointwise_difference(
                        old(self)@,
                        rhs@,
                    )[j],
                forall|j: int|
                    i <= j < self@.len() ==> #[trigger] self@[j] == exponent_at(old(self)@, j),
            decreases n - i,
        {
            let mine = self.factors.get(i);
            let theirs = rhs.factors.get(i);
            assert(exponent_at(rhs@, i as int) <= exponent_at(old(self)@, i as int));
            self.factors.set(i, mine - theirs);
            i += 1;
        }
        assert(self@ =~= pointwise_difference(old(self)@, rhs@));
        self.simplify_factors();
        proof {
            let d = pointwise_difference(old(self)@, rhs@);
            lemma_pointwise_difference(old(self)@, rhs@);
            lemma_simplified(d);
            let a = product_of(d);
            let b = product_of(rhs@);
            let s = old(self).sign as int;
            let t = rhs.sign as int;
            assert(((s * t) * a) * (t * b) == s * (b * a)) by (nonlinear_arith)
                requires
                    t == 1 || t == -1,
            ;
        }
        Ok(())
    }

    /// Factorizations in canonical form that stand for the same integer
    /// are the same: they have the same sign and the same exponents.
    pub proof fn lemma_canonical_unique(a: PrimeFactorization, b: PrimeFactorization)
        requires
            a.wf(),
            b.wf(),
            a.is_canonical(),
            b.is_canonical(),
            a.value() == b.value(),
        ensures
            a.sign == b.sign,
            a@ == b@,
    {
        crate::exponents::lemma_product_positive(a@);
        crate::exponents::lemma_product_positive(b@);
        let p = product_of(a@);
        let q = product_of(b@);
        let s = a.sign as int;
        let t = b.sign as int;
        assert(s == t && (s != 0 ==> p == q)) by (nonlinear_arith)
            requires
                -1 <= s <= 1,
                -1 <= t <= 1,
                p >= 1,
                q >= 1,
                s * p == t * q,
        ;
        if s != 0 {
            crate::valuation::lemma_unique_factorization(a@, b@);
            crate::exponents::lemma_simplified_unique(a@, b@);
        } else {
            assert(a@ =~= b@);
        }
    }

    /// Whether `dividend` can be divided by `divisor`, and if not, why.
    pub open spec fn division_outcome(
        dividend: PrimeFactorization,
        divisor: PrimeFactorization,
    ) -> Result<(), DivisionError> {
        if divisor.sign == 0 {
            Err(DivisionError::DivisionByZero)
        } else if dividend.sign != 0 && !is_within(divisor@, dividend@) {
            Err(DivisionError::NonExactDivision)
        } else {
            Ok(())
        }
    }

    /// The quotient of two factorizations, where the division is exact.
    pub fn div(self, rhs: PrimeFactorization) -> (result: Result<PrimeFactorization, DivisionError>)
        requires
            self.wf(),
            rhs.wf(),
        ensures
            match result {
                Ok(quotient) => {
                    &&& PrimeFactorization::division_outcome(self, rhs).is_ok()
                    &&& quotient.wf()
                    &&& quotient.value() * rhs.value() == self.value()
                    &&& quotient.sign == self.sign * rhs.sign
                    &&& quotient@ == if self.sign == 0 {
                        self@
                    } else {
                        simplified(pointwise_difference(self@, rhs@))
                    }
                },
                Err(error) => PrimeFactorization::division_outcome(self, rhs) == Err::<
                    (),
                    DivisionError,
                >(error),
            },
    {
        let mut quotient = self;
        match quotient.div_assign(&rhs) {
            Ok(()) => Ok(quotient),
            Err(error) => Err(error),
        }
    }
}

impl PrimeFactorization {
    /// The prime factorization of `n`, found by dividing by one prime after
    /// the other until nothing but 1 is left. Zero has the sign 0 and no exponents.
    pub fn new(n: i32, primes: &mut Primes) -> (factorization: PrimeFactorization)
        requires
            old(primes).wf(),
        ensures
            final(primes).wf(),
            final(primes).known() >= old(primes).known(),
            factorization.wf(),
            factorization.is_canonical(),
            factorization.value() == n,
            factorization.sign == if n > 0 {
                1int
            } else if n < 0 {
                -1int
            } else {
                0int
            },
            n != 0 ==> forall|i: nat| #[trigger]
                exponent_at(factorization@, i as int) == valuation(
                    nth_prime(i),
                    if n > 0 {
                        n as int
                    } else {
                        -n
                    },
                ),
    {
        if n == 0 {
            return PrimeFactorization::zero();
        }
        let sign: i8 = if n > 0 {
            1
        } else {
            -1
        };
        let magnitude: u32 = if n > 0 {
            n as u32
        } else {
            (-(n as i64)) as u32
        };
        let mut value = magnitude;
        let mut factors = Factors::new();
        let mut iter = crate::primes::primes();
        proof {
            assert(product_of(Seq::<u16>::empty()) == 1) by {
                reveal_with_fuel(crate::exponents::product_upto, 2);
            }
            crate::primality::lemma_first_prime();
        }
        loop
            invariant_except_break
                value > 1 || iter.position() == 0,
                value > 1 ==> nth_prime(iter.position()) <= value,
            invariant
                primes.wf(),
                primes.known() >= old(primes).known(),
                1 <= value <= magnitude <= 0x8000_0000,
                exponent_list(factors).len() == iter.position(),
                product_of(exponent_list(factors)) * value == magnitude,
                forall|i: int|
                    0 <= i < iter.position() ==> #[trigger] (value as int % nth_prime(i as nat))
                        != 0,
            ensures
                value == 1,
                is_simplified(exponent_list(factors)),
            decreases value + 1 - nth_prime(iter.position()),
        {
            let ghost index = iter.position();
            let ghost start = value;
            let ghost before = exponent_list(factors);
            proof {
                if index == 0 {
                    crate::primality::lemma_first_prime();
                }
            }
            let prime = match iter.next(primes) {
                Some(prime) => prime,
                None => {
                    proof {
                        assert(false);
                    }
                    break ;
                },
            };
            proof {
                lemma_nth_prime_exists(index);
                lemma_pow0(prime as int);
                lemma2_to64();
            }
            let mut factor: u16 = 0;
            while value % prime == 0
                invariant
                    prime >= 2,
                    1 <= value <= start <= 0x8000_0000,
                    pow(prime as int, factor as nat) * value == start,
                    pow2(factor as nat) * value <= start,
                    factor < 32,
                decreases value,
            {
                proof {
                    let quotient = value as int / prime as int;
                    crate::primality::lemma_exact_quotient(value as int, prime as int);
                    lemma_pow1(prime as int);
                    lemma_pow_adds(prime as int, factor as nat, 1);
                    lemma_pow2_unfold((factor + 1) as nat);
                    let power = pow(prime as int, factor as nat);
                    let small = pow2(factor as nat) as int;
                    assert((power * prime) * quotient == power * value && 1 <= quotient < value
                        && (2 * small) * quotient <= small * value) by (nonlinear_arith)
                        requires
                            value == prime * quotient,
                            prime >= 2,
                            value >= 1,
                            small >= 0,
                    ;
                    if factor + 1 >= 32 {
                        lemma2_to64();
                        if factor + 1 > 32 {
                            lemma_pow2_strictly_increases(32, (factor + 1) as nat);
                        }
                        assert(pow2((factor + 1) as nat) * quotient >= pow2((factor + 1) as nat))
                            by (nonlinear_arith)
                            requires
                                quotient >= 1,
                        ;
                    }
                }
                factor += 1;
                value /= prime;
            }
            factors.push(factor);
            proof {
                let power = pow(prime as int, factor as nat);
                crate::exponents::lemma_product_push(before, factor);
                assert((product_of(before) * power) * value == product_of(before) * (power
                    * value)) by (nonlinear_arith);
                lemma_pow_positive(prime as int, factor as nat);
                assert forall|i: int| 0 <= i < index + 1 implies #[trigger] (value as int
                    % nth_prime(i as nat)) != 0 by {
                    if i < index && value as int % nth_prime(i as nat) == 0 {
                        lemma_nth_prime_exists(i as nat);
                        lemma_product_divisible(value as int, power);
                        lemma_divides_transitive(nth_prime(i as nat), value as int, start as int);
                        assert(start as int % nth_prime(i as nat) == 0);
                    }
                }
                if factor == 0 {
                    lemma_pow0(prime as int);
                    assert(value == start) by (nonlinear_arith)
                        requires
                            power * value == start,
                            power == 1,
                    ;
                    assert(exponent_list(factors) =~= before.push(0u16));
                }
                lemma_nth_prime_increasing(index, index + 1);
                if value > 1 {
                    let i = lemma_nth_prime_divisor(value as int) as int;
                    assert(value as int % nth_prime(i as nat) == 0);
                    if i > index + 1 {
                        lemma_nth_prime_increasing(index + 1, i as nat);
                    }
                }
            }
            if value == 1 {
                break ;
            }
        }
        let factorization = PrimeFactorization { sign, factors };
        proof {
            assert forall|i: nat| #[trigger]
                exponent_at(factorization@, i as int) == valuation(
                    nth_prime(i),
                    magnitude as int,
                ) by {
                lemma_valuation_of_product(factorization@, i);
            }
        }
        factorization
    }
}

} // verus!
