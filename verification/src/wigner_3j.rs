//! The evaluation of 3j symbols and Clebsch-Gordan coefficients, up to the
//! point where the exact numbers are turned into floating point.
use crate::cache::{
    after_put, after_use, cache_capacity, cache_clear, cache_entries, cache_get, cache_new,
    cache_put, lookup, Wigner3jCacheKey, MAX_CACHE_CAPACITY,
};
use crate::exponents::{
    exponent_at, lemma_pointwise_cancel, lemma_pointwise_sum, lemma_simplified, sum_fits,
};
use crate::factorial::{factorial, lemma_factorial_fits, lemma_factorial_value, FactorialTable};
use crate::factorization::PrimeFactorization;
use crate::legendre::{legendre, lemma_legendre_bound};
use crate::primality::nth_prime;
use crate::primes::Primes;
use crate::products::{
    factorial_product, factorials_exponent, is_factorial_product, lemma_factorials_exponent_bound,
    lemma_total_of_six, lemma_total_of_three,
};
use crate::rational::Rational;
use crate::series::{compute_3j_series, series_of};
use crate::symbol::{is_reduced_power, symbol_of, Symbol};
use lru::LruCache;
use vstd::prelude::*;

verus! {

/// How many symbols the cache of an engine holds at most.
pub const WIGNER_3J_CACHE_SIZE: usize = 200_000;

/// The greatest sum of the three angular momenta for which a symbol is
/// evaluated: up to it no exponent of an intermediate factorization leaves
/// the 16 bits that a factorization has for it.
pub const MAX_TOTAL_J: u32 = 21844;

/// Why a symbol has no value.
#[derive(Debug, PartialEq, Eq, Clone, Copy)]
pub enum Wigner3jError {
    /// A projection is outside its angular momentum.
    InvalidArguments,
    /// The sum of the angular momenta is above `MAX_TOTAL_J`.
    CapacityOverflow,
}

/// What the evaluation of a symbol gives. The value of the symbol is
/// `sign` times a magnitude, which is kept in the cache under `key`, as the
/// bits of a floating point number.
#[derive(Debug)]
pub enum Wigner3j {
    /// The selection rules make the symbol zero.
    Zero,
    /// The magnitude was in the cache, as it was kept there.
    Cached { sign: i8, key: Wigner3jCacheKey, magnitude: u64 },
    /// The magnitude is the sum of `series` times the square root of `root`.
    Computed { sign: i8, key: Wigner3jCacheKey, series: Vec<PrimeFactorization>, root: Rational },
}

/// What belongs to the evaluation of symbols: the source of primes, the
/// table of factorials and the cache of magnitudes.
pub struct Wigner3jEngine {
    pub primes: Primes,
    pub factorials: FactorialTable,
    pub cache: LruCache<Wigner3jCacheKey, u64>,
}

impl Wigner3jEngine {
    /// The primes and the factorials are what they should be.
    pub open spec fn wf(&self) -> bool {
        self.primes.wf() && self.factorials.wf()
    }

    /// The entries of the cache, the most recently used first.
    pub open spec fn cached(&self) -> Seq<(Wigner3jCacheKey, u64)> {
        cache_entries(self.cache)
    }

    /// A new engine, with an empty cache for `WIGNER_3J_CACHE_SIZE` magnitudes.
    pub fn new() -> (engine: Wigner3jEngine)
        ensures
            engine.wf(),
            engine.cached() == Seq::<(Wigner3jCacheKey, u64)>::empty(),
            cache_capacity(engine.cache) == WIGNER_3J_CACHE_SIZE,
    {
        Wigner3jEngine::with_capacity(WIGNER_3J_CACHE_SIZE)
    }

    /// A new engine, with an empty cache for `capacity` magnitudes.
    pub fn with_capacity(capacity: usize) -> (engine: Wigner3jEngine)
        requires
            capacity <= MAX_CACHE_CAPACITY,
        ensures
            engine.wf(),
            engine.cached() == Seq::<(Wigner3jCacheKey, u64)>::empty(),
            cache_capacity(engine.cache) == capacity,
    {
        let mut primes = Primes::new();
        let factorials = FactorialTable::new(&mut primes);
        Wigner3jEngine { primes, factorials, cache: cache_new(capacity) }
    }
}

/// The key of the cache for a symbol in canonical form: the limits of its series.
pub open spec fn key_of(symbol: Symbol) -> (int, int, int, int, int) {
    (
        symbol.series().alpha1,
        symbol.series().alpha2,
        symbol.series().beta1,
        symbol.series().beta2,
        symbol.series().beta3,
    )
}

/// Whether `key` is the key of the cache for a symbol in canonical form.
pub open spec fn is_key_of(key: Wigner3jCacheKey, symbol: Symbol) -> bool {
    (key.0 as int, key.1 as int, key.2 as int, key.3 as int, key.4 as int) == key_of(symbol)
}

/// Whether the factorizations are the numerators of the series of a symbol
/// in canonical form, first term to last.
pub open spec fn is_series_of(series: Seq<PrimeFactorization>, symbol: Symbol) -> bool {
    &&& series.len() == symbol.series().count()
    &&& forall|n: int|
        0 <= n < series.len() ==> symbol.series().is_numerator(
            #[trigger] series[n],
            symbol.series().first() + n,
        )
}

/// Removes every magnitude from the cache.
pub fn clear_wigner_3j_cache(engine: &mut Wigner3jEngine)
    ensures
        final(engine).cached() == Seq::<(Wigner3jCacheKey, u64)>::empty(),
        cache_capacity(final(engine).cache) == cache_capacity(old(engine).cache),
        final(engine).primes == old(engine).primes,
        final(engine).factorials == old(engine).factorials,
{
    cache_clear(&mut engine.cache);
}

/// Keeps a magnitude in the cache, under the key that its evaluation gave.
pub fn cache_wigner_3j(engine: &mut Wigner3jEngine, key: Wigner3jCacheKey, magnitude: u64)
    ensures
        final(engine).cached() == after_put(
            old(engine).cached(),
            cache_capacity(old(engine).cache),
            key,
            magnitude,
        ),
        cache_capacity(final(engine).cache) == cache_capacity(old(engine).cache),
        final(engine).primes == old(engine).primes,
        final(engine).factorials == old(engine).factorials,
{
    cache_put(&mut engine.cache, key, magnitude);
}

/// Checks the triangle condition on `j1`, `j2`, `j3`: `|j1 - j2| <= j3 <= j1 + j2`.
pub fn triangle_condition(j1: u32, j2: u32, j3: u32) -> (holds: bool)
    ensures
        holds == symbol_of(j1, j2, j3, 0, 0, 0).is_triangle(),
{
    let a = j1 as u64;
    let b = j2 as u64;
    let c = j3 as u64;
    c <= a + b && a <= b + c && b <= c + a
}

/// Brings a symbol into the canonical form, and gives with it the factor
/// by which the symbol differs from the one in canonical form, times `sign`.
pub fn reorder3j(j1: u32, j2: u32, j3: u32, m1: i32, m2: i32, m3: i32, sign: i8) -> (reordered: (
    u32,
    u32,
    u32,
    i32,
    i32,
    i32,
    i8,
))
    requires
        sign == 1 || sign == -1,
        m1 > i32::MIN,
        m2 > i32::MIN,
        m3 > i32::MIN,
    ensures
        symbol_of(
            reordered.0,
            reordered.1,
            reordered.2,
            reordered.3,
            reordered.4,
            reordered.5,
        ) == symbol_of(j1, j2, j3, m1, m2, m3).canonical(),
        reordered.6 == sign * symbol_of(j1, j2, j3, m1, m2, m3).reorder_sign(),
        reordered.6 == 1 || reordered.6 == -1,
{
    let ghost symbol = symbol_of(j1, j2, j3, m1, m2, m3);
    proof {
        reveal(Symbol::canonical);
        reveal(Symbol::reorder_sign);
    }
    let mut flips: u8 = 0;
    let (j1, j2, m1, m2) = if j1 < j2 {
        flips += 1;
        (j2, j1, m2, m1)
    } else {
        (j1, j2, m1, m2)
    };
    assert(symbol_of(j1, j2, j3, m1, m2, m3) == symbol.sorted_once());
    let (j2, j3, m2, m3) = if j2 < j3 {
        flips += 1;
        (j3, j2, m3, m2)
    } else {
        (j2, j3, m2, m3)
    };
    assert(symbol_of(j1, j2, j3, m1, m2, m3) == symbol.sorted_twice());
    let (j1, j2, m1, m2) = if j1 < j2 {
        flips += 1;
        (j2, j1, m2, m1)
    } else {
        (j1, j2, m1, m2)
    };
    assert(symbol_of(j1, j2, j3, m1, m2, m3) == symbol.sorted());
    let (m1, m2, m3) = if m1 < 0 || (m1 == 0 && m2 < 0) {
        flips += 1;
        (-m1, -m2, -m3)
    } else {
        (m1, m2, m3)
    };
    assert(flips == symbol.flips());
    let total = j1 as u64 + j2 as u64 + j3 as u64;
    assert(total == symbol.total());
    let factor = if total % 2 == 0 || flips % 2 == 0 {
        sign
    } else {
        -sign
    };
    (j1, j2, j3, m1, m2, m3, factor)
}

/// The triangle coefficient of three angular momenta in lowest terms:
/// `(j1 + j2 - j3)! (j1 - j2 + j3)! (j2 + j3 - j1)! / (j1 + j2 + j3 + 1)!`.
pub fn triangle_coefficient(
    j1: u32,
    j2: u32,
    j3: u32,
    table: &FactorialTable,
    primes: &mut Primes,
) -> (coefficient: Rational)
    requires
        table.wf(),
        old(primes).wf(),
        symbol_of(j1, j2, j3, 0, 0, 0).is_triangle(),
        j1 + j2 + j3 < u16::MAX,
    ensures
        final(primes).wf(),
        final(primes).known() >= old(primes).known(),
        symbol_of(j1, j2, j3, 0, 0, 0).is_triangle_coefficient(coefficient),
        forall|i: int| #[trigger]
            exponent_at(coefficient.numerator@, i) <= j1 + j2 + j3 && exponent_at(
                coefficient.denominator@,
                i,
            ) <= j1 + j2 + j3 + 1,
{
    let ghost symbol = symbol_of(j1, j2, j3, 0, 0, 0);
    let mut arguments: Vec<u32> = Vec::new();
    arguments.push(j1 + j2 - j3);
    arguments.push(j1 + j3 - j2);
    arguments.push(j2 + j3 - j1);
    proof {
        assert(arguments@ =~= symbol.triangle_arguments());
        lemma_total_of_three(arguments@);
        lemma_factorial_fits(j1 + j2 + j3 + 1);
    }
    let numerator = factorial_product(&arguments, table, primes);
    let denominator = match factorial(j1 + j2 + j3 + 1, table, primes) {
        Ok(denominator) => denominator,
        Err(_) => PrimeFactorization::zero(),
    };
    proof {
        lemma_factorial_value(denominator, (j1 + j2 + j3 + 1) as nat);
    }
    let mut coefficient = Rational::new(numerator, denominator);
    let ghost before = coefficient;
    coefficient.simplify();
    proof {
        let above = before.numerator@;
        let below = before.denominator@;
        lemma_pointwise_cancel(above, below);
        lemma_pointwise_cancel(below, above);
        lemma_simplified(crate::exponents::pointwise_cancel(above, below));
        lemma_simplified(crate::exponents::pointwise_cancel(below, above));
        let power = |i: nat| symbol.triangle_exponent(nth_prime(i));
        assert(before.numerator.sign == 1);
        assert(coefficient.numerator@ == crate::exponents::simplified(
            crate::exponents::pointwise_cancel(above, below),
        ));
        assert forall|i: nat| #[trigger]
            exponent_at(coefficient.numerator@, i as int) == if power(i) >= 0 {
                power(i)
            } else {
                0
            } by {
            assert(exponent_at(above, i as int) == factorials_exponent(
                arguments@,
                nth_prime(i),
            ));
            assert(exponent_at(below, i as int) == legendre(j1 + j2 + j3 + 1, nth_prime(i)));
            assert(exponent_at(coefficient.numerator@, i as int) == exponent_at(
                crate::exponents::pointwise_cancel(above, below),
                i as int,
            ));
            assert(power(i) == factorials_exponent(arguments@, nth_prime(i)) - legendre(
                j1 + j2 + j3 + 1,
                nth_prime(i),
            ));
        }
        assert forall|i: nat| #[trigger]
            exponent_at(coefficient.denominator@, i as int) == if power(i) <= 0 {
                -power(i)
            } else {
                0
            } by {
            assert(exponent_at(above, i as int) == factorials_exponent(
                arguments@,
                nth_prime(i),
            ));
            assert(exponent_at(below, i as int) == legendre(j1 + j2 + j3 + 1, nth_prime(i)));
            assert(exponent_at(coefficient.denominator@, i as int) == exponent_at(
                crate::exponents::pointwise_cancel(below, above),
                i as int,
            ));
            assert(power(i) == factorials_exponent(arguments@, nth_prime(i)) - legendre(
                j1 + j2 + j3 + 1,
                nth_prime(i),
            ));
        }
        assert forall|i: int| #[trigger]
            exponent_at(coefficient.numerator@, i) <= j1 + j2 + j3 && exponent_at(
                coefficient.denominator@,
                i,
            ) <= j1 + j2 + j3 + 1 by {
            if i >= 0 {
                let n = i as nat;
                assert(exponent_at(above, n as int) == factorials_exponent(
                    arguments@,
                    nth_prime(n),
                ));
                assert(exponent_at(below, n as int) == legendre(j1 + j2 + j3 + 1, nth_prime(n)));
                lemma_factorials_exponent_bound(arguments@, nth_prime(n));
                lemma_legendre_bound(j1 + j2 + j3 + 1, nth_prime(n));
                assert(exponent_at(coefficient.numerator@, n as int) <= exponent_at(
                    above,
                    n as int,
                ));
                assert(exponent_at(coefficient.denominator@, n as int) <= exponent_at(
                    below,
                    n as int,
                ));
            }
        }
    }
    coefficient
}

/// The number under the root of a symbol: the triangle coefficient times
/// the product of the factorials of the projections, over the square of the
/// common denominator of the series, in lowest terms.
pub fn under_root(
    coefficient: Rational,
    projections: PrimeFactorization,
    denominator: &PrimeFactorization,
) -> (root: Rational)
    requires
        coefficient.numerator.sign == 1,
        coefficient.denominator.sign == 1,
        projections.sign == 1,
        denominator.sign == 1,
        forall|i: int| #[trigger]
            exponent_at(coefficient.numerator@, i) + exponent_at(projections@, i) <= u16::MAX,
        forall|i: int| #[trigger]
            exponent_at(coefficient.denominator@, i) + 2 * exponent_at(denominator@, i)
                <= u16::MAX,
    ensures
        is_reduced_power(
            root,
            |i: nat|
                exponent_at(coefficient.numerator@, i as int) - exponent_at(
                    coefficient.denominator@,
                    i as int,
                ) + exponent_at(projections@, i as int) - 2 * exponent_at(
                    denominator@,
                    i as int,
                ),
        ),
{
    let ghost above = coefficient.numerator@;
    let ghost below = coefficient.denominator@;
    let ghost common = denominator@;
    let ghost factor = projections@;
    proof {
        lemma_pointwise_sum(above, factor);
    }
    let numerator = coefficient.numerator.mul(projections);
    let mut root = Rational::new(numerator, coefficient.denominator);
    let scale = Rational::new(PrimeFactorization::one(), denominator.clone());
    proof {
        assert forall|i: int| #[trigger]
            exponent_at(root.numerator@, i) + exponent_at(scale.numerator@, i) <= u16::MAX by {
            assert(exponent_at(above, i) + exponent_at(factor, i) <= u16::MAX);
        }
        assert forall|i: int| #[trigger]
            exponent_at(root.denominator@, i) + exponent_at(scale.denominator@, i)
                <= u16::MAX by {
            assert(exponent_at(below, i) + 2 * exponent_at(common, i) <= u16::MAX);
        }
        lemma_pointwise_sum(root.numerator@, scale.numerator@);
        lemma_pointwise_sum(root.denominator@, scale.denominator@);
    }
    let ghost once = (
        crate::exponents::pointwise_sum(root.numerator@, scale.numerator@),
        crate::exponents::pointwise_sum(root.denominator@, scale.denominator@),
    );
    root.mul_assign(&scale);
    proof {
        assert(root.numerator@ == once.0);
        assert(root.denominator@ == once.1);
        assert forall|i: int| #[trigger]
            exponent_at(root.numerator@, i) + exponent_at(scale.numerator@, i) <= u16::MAX by {
            assert(exponent_at(above, i) + exponent_at(factor, i) <= u16::MAX);
        }
        assert forall|i: int| #[trigger]
            exponent_at(root.denominator@, i) + exponent_at(scale.denominator@, i)
                <= u16::MAX by {
            assert(exponent_at(below, i) + 2 * exponent_at(common, i) <= u16::MAX);
        }
        lemma_pointwise_sum(root.numerator@, scale.numerator@);
        lemma_pointwise_sum(root.denominator@, scale.denominator@);
    }
    let ghost twice = (
        crate::exponents::pointwise_sum(root.numerator@, scale.numerator@),
        crate::exponents::pointwise_sum(root.denominator@, scale.denominator@),
    );
    root.mul_assign(&scale);
    proof {
        assert(root.numerator@ == twice.0);
        assert(root.denominator@ == twice.1);
        lemma_pointwise_cancel(twice.0, twice.1);
        lemma_pointwise_cancel(twice.1, twice.0);
        lemma_simplified(crate::exponents::pointwise_cancel(twice.0, twice.1));
        lemma_simplified(crate::exponents::pointwise_cancel(twice.1, twice.0));
    }
    root.simplify();
    proof {
        let power = |i: nat|
            exponent_at(above, i as int) - exponent_at(below, i as int) + exponent_at(
                factor,
                i as int,
            ) - 2 * exponent_at(common, i as int);
        assert forall|i: nat| #[trigger]
            exponent_at(root.numerator@, i as int) == if power(i) >= 0 {
                power(i)
            } else {
                0
            } by {
            under_root_exponents(above, below, factor, common, once, twice, i as int);
            assert(exponent_at(root.numerator@, i as int) == exponent_at(
                crate::exponents::pointwise_cancel(twice.0, twice.1),
                i as int,
            ));
        }
        assert forall|i: nat| #[trigger]
            exponent_at(root.denominator@, i as int) == if power(i) <= 0 {
                -power(i)
            } else {
                0
            } by {
            under_root_exponents(above, below, factor, common, once, twice, i as int);
            assert(exponent_at(root.denominator@, i as int) == exponent_at(
                crate::exponents::pointwise_cancel(twice.1, twice.0),
                i as int,
            ));
        }
    }
    root
}

/// The exponents at one position through the steps of `under_root`.
proof fn under_root_exponents(
    above: Seq<u16>,
    below: Seq<u16>,
    factor: Seq<u16>,
    common: Seq<u16>,
    once: (Seq<u16>, Seq<u16>),
    twice: (Seq<u16>, Seq<u16>),
    i: int,
)
    requires
        sum_fits(above, factor),
        once.0 == crate::exponents::pointwise_sum(
            crate::exponents::pointwise_sum(above, factor),
            seq![0u16],
        ),
        once.1 == crate::exponents::pointwise_sum(below, common),
        twice.0 == crate::exponents::pointwise_sum(once.0, seq![0u16]),
        twice.1 == crate::exponents::pointwise_sum(once.1, common),
        exponent_at(below, i) + 2 * exponent_at(common, i) <= u16::MAX,
    ensures
        exponent_at(twice.0, i) == exponent_at(above, i) + exponent_at(factor, i),
        exponent_at(twice.1, i) == exponent_at(below, i) + 2 * exponent_at(common, i),
{
    assert(exponent_at(above, i) + exponent_at(factor, i) <= u16::MAX);
    assert(exponent_at(seq![0u16], i) == 0);
}

/// Whether the projection `m` is within the angular momentum `j`.
pub(crate) fn within(m: i32, j: u32) -> (inside: bool)
    ensures
        inside == (-j <= m <= j),
{
    let m = m as i64;
    let j = j as i64;
    -j <= m && m <= j
}

/// The canonical form of a symbol is as valid as the symbol, meets the
/// selection rules as it does, and has the same sum of angular momenta.
pub proof fn lemma_canonical(symbol: Symbol)
    ensures
        symbol.canonical().is_canonical(),
        symbol.canonical().is_valid() == symbol.is_valid(),
        symbol.canonical().is_selected() == symbol.is_selected(),
        symbol.canonical().total() == symbol.total(),
{
    reveal(Symbol::canonical);
    let once = symbol.sorted_once();
    let twice = symbol.sorted_twice();
    let sorted = symbol.sorted();
    assert(once.is_valid() == symbol.is_valid() && once.is_selected() == symbol.is_selected());
    assert(twice.is_valid() == once.is_valid() && twice.is_selected() == once.is_selected());
    assert(sorted.is_valid() == twice.is_valid() && sorted.is_selected()
        == twice.is_selected());
}

/// The limits of the series of a symbol with the given quantum numbers.
pub fn series_limits(j1: u32, j2: u32, j3: u32, m1: i32, m2: i32, m3: i32) -> (key: Wigner3jCacheKey)
    requires
        symbol_of(j1, j2, j3, m1, m2, m3).is_valid(),
        symbol_of(j1, j2, j3, m1, m2, m3).is_triangle(),
        j1 + j2 + j3 <= MAX_TOTAL_J,
    ensures
        is_key_of(key, symbol_of(j1, j2, j3, m1, m2, m3)),
{
    let alpha1 = j2 as i32 - m1 - j3 as i32;
    let alpha2 = j1 as i32 + m2 - j3 as i32;
    let beta1 = (j1 + j2 - j3) as i32;
    let beta2 = j1 as i32 - m1;
    let beta3 = j2 as i32 + m2;
    (alpha1, alpha2, beta1, beta2, beta3)
}

/// The product of the factorials of `j + m` and `j - m` over the columns of
/// a symbol.
pub fn projection_factorials(
    j1: u32,
    j2: u32,
    j3: u32,
    m1: i32,
    m2: i32,
    m3: i32,
    table: &FactorialTable,
    primes: &mut Primes,
) -> (product: PrimeFactorization)
    requires
        table.wf(),
        old(primes).wf(),
        symbol_of(j1, j2, j3, m1, m2, m3).is_valid(),
        j1 + j2 + j3 <= MAX_TOTAL_J,
    ensures
        final(primes).wf(),
        final(primes).known() >= old(primes).known(),
        is_factorial_product(product, symbol_of(j1, j2, j3, m1, m2, m3).projection_arguments()),
        forall|i: int| #[trigger] exponent_at(product@, i) <= 2 * (j1 + j2 + j3),
{
    let mut arguments: Vec<u32> = Vec::new();
    arguments.push((j1 as i32 - m1) as u32);
    arguments.push((j1 as i32 + m1) as u32);
    arguments.push((j2 as i32 - m2) as u32);
    arguments.push((j2 as i32 + m2) as u32);
    arguments.push((j3 as i32 - m3) as u32);
    arguments.push((j3 as i32 + m3) as u32);
    proof {
        assert(arguments@ =~= symbol_of(j1, j2, j3, m1, m2, m3).projection_arguments());
        lemma_total_of_six(arguments@);
    }
    let product = factorial_product(&arguments, table, primes);
    proof {
        assert forall|i: int| #[trigger] exponent_at(product@, i) <= 2 * (j1 + j2 + j3) by {
            if i >= 0 {
                assert(exponent_at(product@, (i as nat) as int) == factorials_exponent(
                    arguments@,
                    nth_prime(i as nat),
                ));
                lemma_factorials_exponent_bound(arguments@, nth_prime(i as nat));
            }
        }
    }
    product
}

/// The magnitude of a symbol that meets the selection rules, in exact
/// form: the numerators of its series over their common denominator, and the
/// number under the root, which holds the square of that denominator.
pub fn exact_magnitude(
    j1: u32,
    j2: u32,
    j3: u32,
    m1: i32,
    m2: i32,
    m3: i32,
    table: &FactorialTable,
    primes: &mut Primes,
) -> (magnitude: (Vec<PrimeFactorization>, Rational))
    requires
        table.wf(),
        old(primes).wf(),
        symbol_of(j1, j2, j3, m1, m2, m3).is_valid(),
        symbol_of(j1, j2, j3, m1, m2, m3).is_selected(),
        j1 + j2 + j3 <= MAX_TOTAL_J,
    ensures
        final(primes).wf(),
        final(primes).known() >= old(primes).known(),
        is_series_of(magnitude.0@, symbol_of(j1, j2, j3, m1, m2, m3)),
        symbol_of(j1, j2, j3, m1, m2, m3).is_root(magnitude.1),
{
    let ghost symbol = symbol_of(j1, j2, j3, m1, m2, m3);
    let ghost limits = symbol.series();
    let key = series_limits(j1, j2, j3, m1, m2, m3);
    let coefficient = triangle_coefficient(j1, j2, j3, table, primes);
    let projections = projection_factorials(j1, j2, j3, m1, m2, m3, table, primes);
    assert(limits == series_of(key.2, key.3, key.4, key.0, key.1));
    let series = compute_3j_series(key.2, key.3, key.4, key.0, key.1, table, primes);
    let numerators = series.0;
    let denominator = series.1;
    proof {
        assert(limits.weight() == symbol.total());
        assert forall|i: int| #[trigger]
            exponent_at(coefficient.numerator@, i) + exponent_at(projections@, i)
                <= u16::MAX by {
            assert(exponent_at(projections@, i) <= 2 * (j1 + j2 + j3));
        }
        assert forall|i: int| #[trigger]
            exponent_at(coefficient.denominator@, i) + 2 * exponent_at(denominator@, i)
                <= u16::MAX by {
            assert(exponent_at(coefficient.numerator@, i) <= j1 + j2 + j3);
            if i >= 0 {
                assert(exponent_at(denominator@, (i as nat) as int) == limits.common_exponent(
                    nth_prime(i as nat),
                ));
                limits.lemma_common_exponent_bound(limits.last(), nth_prime(i as nat));
            }
        }
    }
    let root = under_root(coefficient, projections, &denominator);
    proof {
        let power = |i: nat| symbol.root_exponent(nth_prime(i));
        let flat = symbol_of(j1, j2, j3, 0, 0, 0);
        assert(flat.triangle_arguments() =~= symbol.triangle_arguments());
        assert forall|i: nat| #[trigger]
            exponent_at(root.numerator@, i as int) == if power(i) >= 0 {
                power(i)
            } else {
                0
            } by {
            root_exponent_at(symbol, flat, coefficient, projections, denominator, i);
        }
        assert forall|i: nat| #[trigger]
            exponent_at(root.denominator@, i as int) == if power(i) <= 0 {
                -power(i)
            } else {
                0
            } by {
            root_exponent_at(symbol, flat, coefficient, projections, denominator, i);
        }
    }
    (numerators, root)
}

/// The factor `factor` times the sign in front of Racah's formula for a
/// series with the lower limits `alpha1` and `alpha2`.
fn with_phase(factor: i8, alpha1: i32, alpha2: i32) -> (sign: i8)
    requires
        factor == 1 || factor == -1,
    ensures
        sign == factor * crate::series::alternating_sign(alpha1 - alpha2),
{
    let difference = alpha1 as i64 - alpha2 as i64 + 0x2_0000_0000;
    assert(difference % 2 == (alpha1 - alpha2) % 2);
    assert(factor * 1 == factor && factor * (-1) == -factor);
    if difference % 2 != 0 {
        -factor
    } else {
        factor
    }
}

/// Evaluates the symbol with the given quantum numbers as far as exact
/// arithmetic goes.
///
/// There is no value where a projection is outside its angular momentum.
/// The value is zero where the selection rules say so. Otherwise the symbol
/// is brought into the canonical form, and the magnitude of its value is
/// taken from the cache, or given as the numerators of its series and the
/// number under its root; the sum of the angular momenta must then be at
/// most `MAX_TOTAL_J`.
#[verifier::rlimit(50)]
pub fn wigner_3j(
    engine: &mut Wigner3jEngine,
    j1: u32,
    j2: u32,
    j3: u32,
    m1: i32,
    m2: i32,
    m3: i32,
) -> (result: Result<Wigner3j, Wigner3jError>)
    requires
        old(engine).wf(),
    ensures
        final(engine).wf(),
        cache_capacity(final(engine).cache) == cache_capacity(old(engine).cache),
        is_evaluation_of(
            result,
            symbol_of(j1, j2, j3, m1, m2, m3),
            old(engine).cached(),
            final(engine).cached(),
        ),
{
    let ghost symbol = symbol_of(j1, j2, j3, m1, m2, m3);
    if !within(m1, j1) || !within(m2, j2) || !within(m3, j3) {
        return Err(Wigner3jError::InvalidArguments);
    }
    if !triangle_condition(j1, j2, j3) || m1 as i64 + m2 as i64 + m3 as i64 != 0 {
        return Ok(Wigner3j::Zero);
    }
    if j1 as u64 + j2 as u64 + j3 as u64 > MAX_TOTAL_J as u64 {
        return Err(Wigner3jError::CapacityOverflow);
    }
    proof {
        lemma_canonical(symbol);
    }
    let (j1, j2, j3, m1, m2, m3, factor) = reorder3j(j1, j2, j3, m1, m2, m3, 1);
    let key = series_limits(j1, j2, j3, m1, m2, m3);
    let sign = with_phase(factor, key.0, key.1);
    match cache_get(&mut engine.cache, key) {
        Some(magnitude) => {
            return Ok(Wigner3j::Cached { sign, key, magnitude });
        },
        None => {},
    }
    let magnitude = exact_magnitude(
        j1,
        j2,
        j3,
        m1,
        m2,
        m3,
        &engine.factorials,
        &mut engine.primes,
    );
    Ok(Wigner3j::Computed { sign, key, series: magnitude.0, root: magnitude.1 })
}

/// The exponent of a prime in the number under the root, from its exponents
/// in the three factors.
proof fn root_exponent_at(
    symbol: Symbol,
    flat: Symbol,
    coefficient: Rational,
    projections: PrimeFactorization,
    denominator: PrimeFactorization,
    i: nat,
)
    requires
        flat.is_triangle_coefficient(coefficient),
        flat.triangle_arguments() == symbol.triangle_arguments(),
        flat.total() == symbol.total(),
        is_factorial_product(projections, symbol.projection_arguments()),
        symbol.series().is_denominator(denominator),
    ensures
        symbol.root_exponent(nth_prime(i)) == exponent_at(coefficient.numerator@, i as int)
            - exponent_at(coefficient.denominator@, i as int) + exponent_at(
            projections@,
            i as int,
        ) - 2 * exponent_at(denominator@, i as int),
{
    let p = nth_prime(i);
    let power = |n: nat| flat.triangle_exponent(nth_prime(n));
    assert(exponent_at(coefficient.numerator@, i as int) == if power(i) >= 0 {
        power(i)
    } else {
        0
    });
    assert(exponent_at(coefficient.denominator@, i as int) == if power(i) <= 0 {
        -power(i)
    } else {
        0
    });
    assert(exponent_at(projections@, i as int) == factorials_exponent(
        symbol.projection_arguments(),
        p,
    ));
    assert(exponent_at(denominator@, i as int) == symbol.series().common_exponent(p));
}

/// Whether the evaluation gave `sign`, `series` and `root` for the symbol, by
/// computing.
pub open spec fn is_computed_for(
    symbol: Symbol,
    sign: i8,
    series: Seq<PrimeFactorization>,
    root: Rational,
) -> bool {
    &&& sign == symbol.sign()
    &&& is_series_of(series, symbol.canonical())
    &&& symbol.canonical().is_root(root)
}

/// Whether `result` is what the evaluation of `symbol` gives, with a cache
/// that holds `before` when it starts and `after` when it ends.
pub open spec fn is_evaluation_of(
    result: Result<Wigner3j, Wigner3jError>,
    symbol: Symbol,
    before: Seq<(Wigner3jCacheKey, u64)>,
    after: Seq<(Wigner3jCacheKey, u64)>,
) -> bool {
    if !symbol.is_valid() {
        result == Err::<Wigner3j, Wigner3jError>(Wigner3jError::InvalidArguments) && after
            == before
    } else if !symbol.is_selected() {
        result matches Ok(Wigner3j::Zero) && after == before
    } else if symbol.total() > MAX_TOTAL_J {
        result == Err::<Wigner3j, Wigner3jError>(Wigner3jError::CapacityOverflow) && after
            == before
    } else {
        match result {
            Ok(Wigner3j::Cached { sign, key, magnitude }) => {
                &&& sign == symbol.sign()
                &&& is_key_of(key, symbol.canonical())
                &&& lookup(before, key) == Some(magnitude)
                &&& after == after_use(before, key)
            },
            Ok(Wigner3j::Computed { sign, key, series, root }) => {
                &&& is_key_of(key, symbol.canonical())
                &&& lookup(before, key).is_none()
                &&& after == before
                &&& is_computed_for(symbol, sign, series@, root)
            },
            _ => false,
        }
    }
}

} // verus!
