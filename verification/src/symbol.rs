//! The 3j symbol as a mathematical object: its six quantum numbers, the
//! rules that make it zero, the canonical order of its columns, and the
//! pieces of its value by Racah's formula.
use crate::exponents::exponent_at;
use crate::legendre::legendre;
use crate::primality::nth_prime;
use crate::products::factorials_exponent;
use crate::rational::Rational;
use crate::series::{alternating_sign, Series};
use vstd::prelude::*;

verus! {

/// The quantum numbers of a 3j symbol: three columns of an angular momentum
/// `j` and its projection `m`.
pub struct Symbol {
    pub j1: int,
    pub j2: int,
    pub j3: int,
    pub m1: int,
    pub m2: int,
    pub m3: int,
}

impl Symbol {
    /// Whether each projection is within its angular momentum.
    pub open spec fn is_valid(self) -> bool {
        &&& -self.j1 <= self.m1 <= self.j1
        &&& -self.j2 <= self.m2 <= self.j2
        &&& -self.j3 <= self.m3 <= self.j3
    }

    /// The sum of the three angular momenta.
    pub open spec fn total(self) -> int {
        self.j1 + self.j2 + self.j3
    }

    /// Whether the angular momenta meet the triangle condition: none of
    /// them is above the sum of the other two.
    pub open spec fn is_triangle(self) -> bool {
        &&& self.j3 <= self.j1 + self.j2
        &&& self.j1 <= self.j2 + self.j3
        &&& self.j2 <= self.j3 + self.j1
    }

    /// Whether the selection rules let the symbol be other than zero: the
    /// triangle condition holds and the projections sum to zero.
    pub open spec fn is_selected(self) -> bool {
        self.is_triangle() && self.m1 + self.m2 + self.m3 == 0
    }

    /// The symbol with its first two columns exchanged.
    pub open spec fn swap12(self) -> Symbol {
        Symbol {
            j1: self.j2,
            j2: self.j1,
            j3: self.j3,
            m1: self.m2,
            m2: self.m1,
            m3: self.m3,
        }
    }

    /// The symbol with its last two columns exchanged.
    pub open spec fn swap23(self) -> Symbol {
        Symbol {
            j1: self.j1,
            j2: self.j3,
            j3: self.j2,
            m1: self.m1,
            m2: self.m3,
            m3: self.m2,
        }
    }

    /// The symbol with the sign of every projection changed.
    pub open spec fn negated(self) -> Symbol {
        Symbol {
            j1: self.j1,
            j2: self.j2,
            j3: self.j3,
            m1: -self.m1,
            m2: -self.m2,
            m3: -self.m3,
        }
    }

    /// The symbol after the first exchange that brings the columns into
    /// the order of falling angular momentum.
    pub open spec fn sorted_once(self) -> Symbol {
        if self.j1 < self.j2 {
            self.swap12()
        } else {
            self
        }
    }

    /// The symbol after the second exchange.
    pub open spec fn sorted_twice(self) -> Symbol {
        if self.sorted_once().j2 < self.sorted_once().j3 {
            self.sorted_once().swap23()
        } else {
            self.sorted_once()
        }
    }

    /// The symbol with its columns in the order of falling angular
    /// momentum; columns of the same angular momentum keep their order.
    pub open spec fn sorted(self) -> Symbol {
        if self.sorted_twice().j1 < self.sorted_twice().j2 {
            self.sorted_twice().swap12()
        } else {
            self.sorted_twice()
        }
    }

    /// Whether the first projection that is not zero, of the first two, is
    /// negative.
    pub open spec fn needs_negation(self) -> bool {
        self.m1 < 0 || (self.m1 == 0 && self.m2 < 0)
    }

    /// The symbol in the canonical form: columns in the order of falling
    /// angular momentum, and the first projection positive, or zero and the
    /// second not negative.
    #[verifier::opaque]
    pub open spec fn canonical(self) -> Symbol {
        if self.sorted().needs_negation() {
            self.sorted().negated()
        } else {
            self.sorted()
        }
    }

    /// Whether the symbol is in the canonical form.
    pub open spec fn is_canonical(self) -> bool {
        self.j1 >= self.j2 >= self.j3 && !self.needs_negation()
    }

    /// The number of exchanges and changes of sign that bring the symbol
    /// into the canonical form.
    pub open spec fn flips(self) -> int {
        (if self.j1 < self.j2 {
            1int
        } else {
            0int
        }) + (if self.sorted_once().j2 < self.sorted_once().j3 {
            1int
        } else {
            0int
        }) + (if self.sorted_twice().j1 < self.sorted_twice().j2 {
            1int
        } else {
            0int
        }) + (if self.sorted().needs_negation() {
            1int
        } else {
            0int
        })
    }

    /// The factor by which the symbol differs from the one in canonical
    /// form: each exchange and the change of sign multiply by -1 where the
    /// sum of the angular momenta is odd.
    #[verifier::opaque]
    pub open spec fn reorder_sign(self) -> int {
        if self.total() % 2 == 0 {
            1
        } else {
            alternating_sign(self.flips())
        }
    }

    /// The limits of the series in Racah's formula for the symbol.
    pub open spec fn series(self) -> Series {
        Series {
            alpha1: self.j2 - self.m1 - self.j3,
            alpha2: self.j1 + self.m2 - self.j3,
            beta1: self.j1 + self.j2 - self.j3,
            beta2: self.j1 - self.m1,
            beta3: self.j2 + self.m2,
        }
    }

    /// The sign in front of Racah's formula: -1 where `j1 - j2 - m3` is odd.
    pub open spec fn phase(self) -> int {
        alternating_sign(self.series().alpha1 - self.series().alpha2)
    }

    /// The sign by which the value of the symbol's series, read in the
    /// canonical form, is multiplied.
    pub open spec fn sign(self) -> int {
        self.reorder_sign() * self.canonical().phase()
    }

    /// The sum of the series of the symbol as it stands, with the sign in
    /// front of Racah's formula.
    pub open spec fn racah_sum(self) -> int {
        self.phase() * self.series().sum()
    }

    /// The sum of the series of the symbol in canonical form, with the sign
    /// that its evaluation gives: the value of the symbol is this sum times
    /// the square root of the number under the root.
    pub open spec fn signed_sum(self) -> int {
        self.sign() * self.canonical().series().sum()
    }

    /// The numbers whose factorials make up the numerator of the triangle
    /// coefficient.
    pub open spec fn triangle_arguments(self) -> Seq<u32> {
        seq![
            (self.j1 + self.j2 - self.j3) as u32,
            (self.j1 - self.j2 + self.j3) as u32,
            (self.j2 + self.j3 - self.j1) as u32,
        ]
    }

    /// The numbers whose factorials stand under the root beside the
    /// triangle coefficient: `j + m` and `j - m` of each column.
    pub open spec fn projection_arguments(self) -> Seq<u32> {
        seq![
            (self.j1 - self.m1) as u32,
            (self.j1 + self.m1) as u32,
            (self.j2 - self.m2) as u32,
            (self.j2 + self.m2) as u32,
            (self.j3 - self.m3) as u32,
            (self.j3 + self.m3) as u32,
        ]
    }

    /// The exponent of `p` in the triangle coefficient, which is negative
    /// where `p` is left in the denominator.
    pub open spec fn triangle_exponent(self, p: int) -> int {
        factorials_exponent(self.triangle_arguments(), p) - legendre(self.total() + 1, p)
    }

    /// The exponent of `p` in the number under the root: the triangle
    /// coefficient times the factorials of the projections, over the square
    /// of the common denominator of the series.
    pub open spec fn root_exponent(self, p: int) -> int {
        self.triangle_exponent(p) + factorials_exponent(self.projection_arguments(), p) - 2
            * self.series().common_exponent(p)
    }

    /// Whether `r` is the triangle coefficient of the symbol in lowest terms.
    pub open spec fn is_triangle_coefficient(self, r: Rational) -> bool {
        is_reduced_power(r, |i: nat| self.triangle_exponent(nth_prime(i)))
    }

    /// Whether `r` is the number under the root in lowest terms.
    pub open spec fn is_root(self, r: Rational) -> bool {
        is_reduced_power(r, |i: nat| self.root_exponent(nth_prime(i)))
    }
}

/// Whether `r` is the positive rational in lowest terms that holds the
/// `i`-th prime to the power `power(i)`: the positive powers in the numerator,
/// the negative ones in the denominator, both in the canonical form.
pub open spec fn is_reduced_power(r: Rational, power: spec_fn(nat) -> int) -> bool {
    &&& r.numerator.sign == 1
    &&& r.denominator.sign == 1
    &&& r.numerator.is_canonical()
    &&& r.denominator.is_canonical()
    &&& forall|i: nat| #[trigger]
        exponent_at(r.numerator@, i as int) == if power(i) >= 0 {
            power(i)
        } else {
            0
        }
    &&& forall|i: nat| #[trigger]
        exponent_at(r.denominator@, i as int) == if power(i) <= 0 {
            -power(i)
        } else {
            0
        }
}

/// The symbol with the given quantum numbers.
pub open spec fn symbol_of(j1: u32, j2: u32, j3: u32, m1: i32, m2: i32, m3: i32) -> Symbol {
    Symbol {
        j1: j1 as int,
        j2: j2 as int,
        j3: j3 as int,
        m1: m1 as int,
        m2: m2 as int,
        m3: m3 as int,
    }
}

} // verus!
