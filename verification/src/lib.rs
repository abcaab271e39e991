//! Wigner 3j symbols and Clebsch-Gordan coefficients in exact arithmetic.
//!
//! Integers are held as the exponents of their prime factors, so that the
//! factorials of Racah's formula are multiplied and divided without a loss.
//! A symbol is evaluated up to the sum of its series and the number under its
//! root; turning these into floating point is left to the caller.
pub mod cache;
pub mod clebsch_gordan;
pub mod evaluation;
pub mod exponents;
pub mod factorial;
pub mod factorization;
pub mod factors;
pub mod legendre;
pub mod primality;
pub mod prime_table;
pub mod primes;
pub mod products;
pub mod rational;
pub mod real_harmonics;
pub mod series;
pub mod sieve;
pub mod sums;
pub mod symbol;
pub mod symmetry;
pub mod valuation;
pub mod wigner_3j;
