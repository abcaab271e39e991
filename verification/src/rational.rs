//! Rational numbers as two prime factorizations.
use crate::exponents::{
    exponent_at, lemma_pointwise_cancel, lemma_simplified, pointwise_cancel, pointwise_sum,
    product_of, simplified, sum_fits,
};
use crate::factorization::PrimeFactorization;
use vstd::prelude::*;

verus! {

/// A rational number: the numerator over the denominator. The sign of the
/// number is the sign of the numerator.
#[derive(Debug)]
pub struct Rational {
    pub numerator: PrimeFactorization,
    pub denominator: PrimeFactorization,
}

impl Clone for Rational {
    fn clone(&self) -> (copy: Self)
        ensures
            copy.numerator.sign == self.numerator.sign,
            copy.numerator@ == self.numerator@,
            copy.denominator.sign == self.denominator.sign,
            copy.denominator@ == self.denominator@,
    {
        Rational { numerator: self.numerator.clone(), denominator: self.denominator.clone() }
    }
}

impl Rational {
    /// The numerator has a sign, and the denominator is positive.
    pub open spec fn wf(&self) -> bool {
        self.numerator.wf() && self.denominator.sign == 1
    }

    /// Whether two rationals stand for the same number: the products across
    /// are equal.
    pub open spec fn same_number(&self, other: Rational) -> bool {
        self.numerator.value() * other.denominator.value() == other.numerator.value()
            * self.denominator.value()
    }

    /// Whether no prime divides both the numerator and the denominator.
    pub open spec fn is_reduced(&self) -> bool {
        forall|i: int| #[trigger]
            exponent_at(self.numerator@, i) == 0 || exponent_at(self.denominator@, i) == 0
    }

    /// The rational `numerator / denominator`. The sign of the denominator
    /// goes to the numerator, and the denominator becomes positive.
    pub fn new(numerator: PrimeFactorization, denominator: PrimeFactorization) -> (rational: Rational)
        requires
            numerator.wf(),
            denominator.wf(),
        ensures
            rational.wf(),
            rational.numerator.sign == numerator.sign * denominator.sign,
            rational.numerator@ == numerator@,
            rational.denominator@ == denominator@,
            denominator.sign != 0 ==> rational.numerator.value() * denominator.value()
                == numerator.value() * rational.denominator.value(),
    {
        let mut numerator = numerator;
        let mut denominator = denominator;
        let ghost given = (numerator.sign as int, denominator.sign as int);
        numerator.sign = if denominator.sign == 0 {
            0
        } else if denominator.sign == 1 {
            numerator.sign
        } else {
            -numerator.sign
        };
        denominator.sign = 1;
        proof {
            let s = given.0;
            let t = given.1;
            let a = product_of(numerator@);
            let b = product_of(denominator@);
            assert(numerator.sign == s * t) by (nonlinear_arith)
                requires
                    -1 <= t <= 1,
                    numerator.sign == if t == 0 {
                        0
                    } else if t == 1 {
                        s
                    } else {
                        -s
                    },
            ;
            if t != 0 {
                assert(((s * t) * a) * (t * b) == (s * a) * (1 * b)) by (nonlinear_arith)
                    requires
                        t == 1 || t == -1,
                ;
            }
        }
        Rational { numerator, denominator }
    }

    /// Takes the common prime factors out of the numerator and the
    /// denominator, and brings both into the canonical form. The number stays
    /// what it is.
    pub fn simplify(&mut self)
        requires
            old(self).wf(),
        ensures
            final(self).wf(),
            final(self).numerator.sign == old(self).numerator.sign,
            final(self).numerator@ == if old(self).numerator.sign == 0 {
                pointwise_cancel(old(self).numerator@, old(self).denominator@)
            } else {
                simplified(pointwise_cancel(old(self).numerator@, old(self).denominator@))
            },
            final(self).denominator@ == simplified(
                pointwise_cancel(old(self).denominator@, old(self).numerator@),
            ),
            final(self).same_number(*old(self)),
            final(self).is_reduced(),
    {
        let n = if self.numerator.factors.len() < self.denominator.factors.len() {
            self.numerator.factors.len()
        } else {
            self.denominator.factors.len()
        };
        let mut i: usize = 0;
        while i < n
            invariant
                i <= n,
                n <= old(self).numerator@.len(),
                n <= old(self).denominator@.len(),
                self.numerator.sign == old(self).numerator.sign,
                self.denominator.sign == old(self).denominator.sign,
                self.numerator@.len() == old(self).numerator@.len(),
                self.denominator@.len() == old(self).denominator@.len(),
                forall|j: int|
                    0 <= j < i ==> #[trigger] self.numerator@[j] == pointwise_cancel(
                        old(self).numerator@,
                        old(self).denominator@,
                    )[j],
                forall|j: int|
                    0 <= j < i ==> #[trigger] self.denominator@[j] == pointwise_cancel(
                        old(self).denominator@,
                        old(self).numerator@,
                    )[j],
                forall|j: int|
                    i <= j < self.numerator@.len() ==> #[trigger] self.numerator@[j] == old(
                        self,
                    ).numerator@[j],
                forall|j: int|
                    i <= j < self.denominator@.len() ==> #[trigger] self.denominator@[j] == old(
                        self,
                    ).denominator@[j],
            decreases n - i,
        {
            let above = self.numerator.factors.get(i);
            let below = self.denominator.factors.get(i);
            let common = if above < below {
                above
            } else {
                below
            };
            self.numerator.factors.set(i, above - common);
            self.denominator.factors.set(i, below - common);
            i += 1;
        }
        proof {
            let a = old(self).numerator@;
            let b = old(self).denominator@;
            assert(self.numerator@ =~= pointwise_cancel(a, b));
            assert(self.denominator@ =~= pointwise_cancel(b, a));
            lemma_pointwise_cancel(a, b);
            lemma_pointwise_cancel(b, a);
            lemma_simplified(pointwise_cancel(a, b));
            lemma_simplified(pointwise_cancel(b, a));
            let s = old(self).numerator.sign as int;
            let pa = product_of(a);
            let pb = product_of(b);
            let ca = product_of(pointwise_cancel(a, b));
            let cb = product_of(pointwise_cancel(b, a));
            assert((s * ca) * (1 * pb) == (s * pa) * (1 * cb)) by (nonlinear_arith)
                requires
                    pa * cb == pb * ca,
            ;
        }
        self.numerator.simplify_factors();
        self.denominator.simplify_factors();
        proof {
            let a = old(self).numerator@;
            let b = old(self).denominator@;
            assert forall|i: int| #[trigger]
                exponent_at(self.numerator@, i) == 0 || exponent_at(self.denominator@, i)
                    == 0 by {
                assert(exponent_at(self.numerator@, i) == exponent_at(pointwise_cancel(a, b), i));
                assert(exponent_at(self.denominator@, i) == exponent_at(
                    pointwise_cancel(b, a),
                    i,
                ));
            }
        }
    }

    /// Multiplies the rational by `rhs`: numerator by numerator and
    /// denominator by denominator.
    pub fn mul_assign(&mut self, rhs: &Rational)
        requires
            old(self).wf(),
            rhs.wf(),
            sum_fits(old(self).numerator@, rhs.numerator@),
            sum_fits(old(self).denominator@, rhs.denominator@),
        ensures
            final(self).wf(),
            final(self).numerator.sign == old(self).numerator.sign * rhs.numerator.sign,
            final(self).numerator@ == if final(self).numerator.sign == 0 {
                Seq::<u16>::empty()
            } else {
                pointwise_sum(old(self).numerator@, rhs.numerator@)
            },
            final(self).denominator@ == pointwise_sum(old(self).denominator@, rhs.denominator@),
            final(self).numerator.value() == old(self).numerator.value() * rhs.numerator.value(),
            final(self).denominator.value() == old(self).denominator.value()
                * rhs.denominator.value(),
    {
        self.numerator.mul_assign(&rhs.numerator);
        self.denominator.mul_assign(&rhs.denominator);
    }
}

} // verus!
