//! Clebsch-Gordan coefficients for real spherical harmonics, as combinations
//! of the coefficients for complex ones.
//!
//! The real spherical harmonics are taken as
//!
//! ```text
//! Y_lm = i / sqrt(2) * (Y_l^m - (-1)^m Y_l^(-m))      if m < 0
//!        Y_l^m                                        if m == 0
//!        1 / sqrt(2) * (Y_l^(-m) + (-1)^m Y_l^m)      if m > 0
//! ```
use crate::series::alternating_sign;
use vstd::prelude::*;

verus! {

/// How the coefficient for real spherical harmonics with the projections
/// `m1`, `m2`, `m3` is made of the coefficients for complex ones: it is the sum
/// of those at `(m1, m2, m3)`, `(m1, -m2, m3)`, `(-m1, m2, m3)` and
/// `(-m1, -m2, m3)`, each times its factor, which is 1, 0 or -1; the sum is
/// divided by the square root of two where `halved` says so.
#[derive(Debug, PartialEq, Eq, Clone, Copy)]
pub struct RealCombination {
    pub halved: bool,
    pub same: i8,
    pub second_negated: i8,
    pub first_negated: i8,
    pub both_negated: i8,
}

/// The combination with the given factors, as in a `RealCombination`.
pub open spec fn combination(
    halved: bool,
    same: int,
    second_negated: int,
    first_negated: int,
    both_negated: int,
) -> (bool, int, int, int, int) {
    (halved, same, second_negated, first_negated, both_negated)
}

/// The combination for an even sum of the angular momenta, where the
/// coefficient is the real part of the transformed one.
pub open spec fn even_combination(m1: int, m2: int, m3: int) -> (bool, int, int, int, int) {
    let s1 = alternating_sign(m1);
    let s2 = alternating_sign(m2);
    let s3 = alternating_sign(m3);
    if m1 == 0 && m2 == 0 && m3 == 0 {
        combination(false, 1, 0, 0, 0)
    } else if m1 == m2 && m3 == 0 {
        combination(false, 0, s1, 0, 0)
    } else if m1 == 0 && m2 == m3 {
        combination(false, 1, 0, 0, 0)
    } else if m2 == 0 && m1 == m3 {
        combination(false, 1, 0, 0, 0)
    } else if m1 > 0 && m2 > 0 && m3 > 0 {
        combination(true, 1, s2, s1, s3)
    } else if m1 > 0 && m2 < 0 && m3 < 0 {
        combination(true, s1, -s3, 1, -s2)
    } else if m1 < 0 && m2 > 0 && m3 < 0 {
        combination(true, s2, 1, -s3, -s1)
    } else if m1 < 0 && m2 < 0 && m3 > 0 {
        combination(true, -s3, s1, s2, -1)
    } else {
        combination(false, 0, 0, 0, 0)
    }
}

/// The combination for an odd sum of the angular momenta, where the
/// coefficient is the imaginary part of the transformed one.
pub open spec fn odd_combination(m1: int, m2: int, m3: int) -> (bool, int, int, int, int) {
    let s1 = alternating_sign(m1);
    let s2 = alternating_sign(m2);
    let s3 = alternating_sign(m3);
    if m1 == 0 && m2 == 0 && m3 == 0 {
        combination(false, 1, 0, 0, 0)
    } else if m1 == -m2 && m3 == 0 {
        combination(false, -s1, 0, 0, 0)
    } else if m1 == 0 && m2 == -m3 {
        combination(false, 0, 1, 0, 0)
    } else if m2 == 0 && m1 == -m3 {
        combination(false, 0, 0, 1, 0)
    } else if m1 > 0 && m2 > 0 && m3 < 0 {
        combination(true, s3, s2 * s3, s1 * s3, 1)
    } else if m1 > 0 && m2 < 0 && m3 > 0 {
        combination(true, -(s1 * s3), 1, -s3, s2 * s3)
    } else if m1 < 0 && m2 > 0 && m3 > 0 {
        combination(true, -(s2 * s3), -s3, 1, s1 * s3)
    } else if m1 < 0 && m2 < 0 && m3 < 0 {
        combination(true, -1, s1 * s3, s2 * s3, -s3)
    } else {
        combination(false, 0, 0, 0, 0)
    }
}

/// -1 to the power of `m`.
fn minus_one_to(m: i32) -> (sign: i8)
    ensures
        sign == alternating_sign(m as int),
{
    let shifted = m as i64 + 0x1_0000_0000;
    assert(shifted % 2 == m % 2);
    if shifted % 2 == 0 {
        1
    } else {
        -1
    }
}

/// The product of two signs.
fn times(a: i8, b: i8) -> (product: i8)
    requires
        a == 1 || a == -1,
        b == 1 || b == -1,
    ensures
        product == a * b,
        product == 1 || product == -1,
{
    assert(a * b == if a == b {
        1int
    } else {
        -1int
    }) by (nonlinear_arith)
        requires
            a == 1 || a == -1,
            b == 1 || b == -1,
    ;
    if a == b {
        1
    } else {
        -1
    }
}

/// How the coefficient for real spherical harmonics with the projections
/// `m1`, `m2`, `m3` is made of the coefficients for complex ones, for an odd
/// or an even sum of the three angular momenta.
pub fn real_combination(odd: bool, m1: i32, m2: i32, m3: i32) -> (made: RealCombination)
    ensures
        combination(
            made.halved,
            made.same as int,
            made.second_negated as int,
            made.first_negated as int,
            made.both_negated as int,
        ) == if odd {
            odd_combination(m1 as int, m2 as int, m3 as int)
        } else {
            even_combination(m1 as int, m2 as int, m3 as int)
        },
{
    let s1 = minus_one_to(m1);
    let s2 = minus_one_to(m2);
    let s3 = minus_one_to(m3);
    let none = RealCombination {
        halved: false,
        same: 0,
        second_negated: 0,
        first_negated: 0,
        both_negated: 0,
    };
    let one = RealCombination {
        halved: false,
        same: 1,
        second_negated: 0,
        first_negated: 0,
        both_negated: 0,
    };
    if m1 == 0 && m2 == 0 && m3 == 0 {
        one
    } else if !odd {
        if m1 == m2 && m3 == 0 {
            RealCombination {
                halved: false,
                same: 0,
                second_negated: s1,
                first_negated: 0,
                both_negated: 0,
            }
        } else if m1 == 0 && m2 == m3 {
            one
        } else if m2 == 0 && m1 == m3 {
            one
        } else if m1 > 0 && m2 > 0 && m3 > 0 {
            RealCombination {
                halved: true,
                same: 1,
                second_negated: s2,
                first_negated: s1,
                both_negated: s3,
            }
        } else if m1 > 0 && m2 < 0 && m3 < 0 {
            RealCombination {
                halved: true,
                same: s1,
                second_negated: -s3,
                first_negated: 1,
                both_negated: -s2,
            }
        } else if m1 < 0 && m2 > 0 && m3 < 0 {
            RealCombination {
                halved: true,
                same: s2,
                second_negated: 1,
                first_negated: -s3,
                both_negated: -s1,
            }
        } else if m1 < 0 && m2 < 0 && m3 > 0 {
            RealCombination {
                halved: true,
                same: -s3,
                second_negated: s1,
                first_negated: s2,
                both_negated: -1,
            }
        } else {
            none
        }
    } else {
        let first = m1 as i64;
        let second = m2 as i64;
        let third = m3 as i64;
        if first == -second && m3 == 0 {
            RealCombination {
                halved: false,
                same: -s1,
                second_negated: 0,
                first_negated: 0,
                both_negated: 0,
            }
        } else if m1 == 0 && second == -third {
            RealCombination {
                halved: false,
                same: 0,
                second_negated: 1,
                first_negated: 0,
                both_negated: 0,
            }
        } else if m2 == 0 && first == -third {
            RealCombination {
                halved: false,
                same: 0,
                second_negated: 0,
                first_negated: 1,
                both_negated: 0,
            }
        } else if m1 > 0 && m2 > 0 && m3 < 0 {
            RealCombination {
                halved: true,
                same: s3,
                second_negated: times(s2, s3),
                first_negated: times(s1, s3),
                both_negated: 1,
            }
        } else if m1 > 0 && m2 < 0 && m3 > 0 {
            RealCombination {
                halved: true,
                same: -times(s1, s3),
                second_negated: 1,
                first_negated: -s3,
                both_negated: times(s2, s3),
            }
        } else if m1 < 0 && m2 > 0 && m3 > 0 {
            RealCombination {
                halved: true,
                same: -times(s2, s3),
                second_negated: -s3,
                first_negated: 1,
                both_negated: times(s1, s3),
            }
        } else if m1 < 0 && m2 < 0 && m3 < 0 {
            RealCombination {
                halved: true,
                same: -1,
                second_negated: times(s1, s3),
                first_negated: times(s2, s3),
                both_negated: -s3,
            }
        } else {
            none
        }
    }
}

} // verus!
