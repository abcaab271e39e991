use approx::{AbsDiffEq, UlpsEq};
use wigners::cache::Wigner3jCacheKey;
use wigners::clebsch_gordan::{clebsch_gordan, clebsch_gordan_array, SizeMismatch};
use wigners::factorial::FactorialTable;
use wigners::factorization::PrimeFactorization;
use wigners::primes::Primes;
use wigners::rational::Rational;
use wigners::real_harmonics::{real_combination, RealCombination};
use wigners::series::{common_denominator, compute_3j_series, max, min};
use wigners::wigner_3j::{
    cache_wigner_3j, clear_wigner_3j_cache, exact_magnitude, reorder3j, series_limits,
    triangle_coefficient, triangle_condition, wigner_3j, Wigner3j, Wigner3jEngine, Wigner3jError,
    MAX_TOTAL_J,
};

fn as_f64(factorization: &PrimeFactorization, primes: &mut Primes) -> f64 {
    let mut result = factorization.sign as f64;
    for (index, power) in factorization.factors.to_vec().into_iter().enumerate() {
        let prime = primes.checked_get(index).expect("prime above 32 bits") as f64;
        result *= prime.powi(power as i32);
    }
    result
}

fn signed_root(rational: &Rational, primes: &mut Primes) -> f64 {
    let value = as_f64(&rational.numerator, primes) / as_f64(&rational.denominator, primes);
    value.signum() * value.abs().sqrt()
}

/// The value of a symbol, and whether its magnitude came from the cache.
fn evaluate(engine: &mut Wigner3jEngine, symbol: Wigner3j) -> (f64, bool) {
    match symbol {
        Wigner3j::Zero => (0.0, false),
        Wigner3j::Cached { sign, magnitude, .. } => (sign as f64 * f64::from_bits(magnitude), true),
        Wigner3j::Computed { sign, key, series, root } => {
            let mut numerator = 0.0;
            for term in series.iter() {
                numerator += as_f64(term, &mut engine.primes);
            }
            let result = numerator * signed_root(&root, &mut engine.primes);
            cache_wigner_3j(engine, key, result.to_bits());
            (sign as f64 * result, false)
        }
    }
}

fn wigner_3j_value(engine: &mut Wigner3jEngine, j1: u32, j2: u32, j3: u32, m1: i32, m2: i32, m3: i32) -> f64 {
    let symbol = wigner_3j(engine, j1, j2, j3, m1, m2, m3).expect("invalid arguments");
    evaluate(engine, symbol).0
}

fn clebsch_gordan_value(engine: &mut Wigner3jEngine, j1: u32, m1: i32, j2: u32, m2: i32, j3: u32, m3: i32) -> f64 {
    let coefficient = clebsch_gordan(engine, j1, m1, j2, m2, j3, m3).expect("invalid arguments");
    let w3j = evaluate(engine, coefficient.symbol).0 * f64::sqrt(coefficient.scale as f64);
    if coefficient.negative {
        -w3j
    } else {
        w3j
    }
}

fn ulps_eq(a: f64, b: f64) -> bool {
    UlpsEq::ulps_eq(&a, &b, f64::default_epsilon(), f64::default_max_ulps())
}

#[test]
fn test_wigner3j() {
    let mut engine = Wigner3jEngine::new();
    // checked against sympy
    assert!(ulps_eq(wigner_3j_value(&mut engine, 2, 6, 4, 0, 0, 1), 0.0));
    assert!(ulps_eq(wigner_3j_value(&mut engine, 2, 6, 4, 0, 0, 0), f64::sqrt(715.0) / 143.0));
    assert!(ulps_eq(wigner_3j_value(&mut engine, 5, 3, 2, -3, 3, 0), f64::sqrt(330.0) / 165.0));
    assert!(ulps_eq(wigner_3j_value(&mut engine, 5, 3, 2, -2, 3, -1), -f64::sqrt(330.0) / 330.0));
    assert!(ulps_eq(
        wigner_3j_value(&mut engine, 100, 100, 100, 100, -100, 0),
        2.689688852311291e-13
    ));

    assert!(ulps_eq(wigner_3j_value(&mut engine, 0, 1, 1, 0, 0, 0), -0.5773502691896257));
}

#[test]
fn test_clebsch_gordan() {
    let mut engine = Wigner3jEngine::new();
    // checked against sympy
    assert!(ulps_eq(clebsch_gordan_value(&mut engine, 2, 0, 6, 0, 4, 1), 0.0));
    assert!(ulps_eq(clebsch_gordan_value(&mut engine, 1, 1, 1, 1, 2, 2), 1.0));
    assert!(ulps_eq(clebsch_gordan_value(&mut engine, 2, 2, 1, -1, 3, 1), f64::sqrt(1.0 / 15.0)));
}

#[test]
fn clebsch_gordan_exact_one() {
    let mut engine = Wigner3jEngine::new();
    assert_eq!(clebsch_gordan_value(&mut engine, 1, 1, 1, 1, 2, 2), 1.0);
    let coefficient = clebsch_gordan(&mut engine, 1, 1, 1, 1, 2, 2).unwrap();
    assert_eq!(coefficient.scale, 5);
    assert!(!coefficient.negative);
    let odd = clebsch_gordan(&mut engine, 2, 2, 1, -1, 3, 1).unwrap();
    assert_eq!(odd.scale, 7);
    assert!(!odd.negative);
    let negative = clebsch_gordan(&mut engine, 1, 0, 2, 0, 3, 0).unwrap();
    assert!(negative.negative);
}

#[test]
fn selection_rules_give_zero() {
    let mut engine = Wigner3jEngine::new();
    // the projections do not sum to zero
    assert!(matches!(wigner_3j(&mut engine, 2, 6, 4, 0, 0, 1), Ok(Wigner3j::Zero)));
    assert_eq!(wigner_3j_value(&mut engine, 2, 6, 4, 0, 0, 1), 0.0);
    // the triangle condition fails
    assert!(matches!(wigner_3j(&mut engine, 1, 1, 3, 0, 0, 0), Ok(Wigner3j::Zero)));
    assert!(matches!(wigner_3j(&mut engine, 5, 1, 1, 0, 0, 0), Ok(Wigner3j::Zero)));
    assert!(matches!(wigner_3j(&mut engine, 1, 5, 1, 1, -1, 0), Ok(Wigner3j::Zero)));
    // zero also where the angular momenta are beyond what is computed
    assert!(matches!(
        wigner_3j(&mut engine, u32::MAX, u32::MAX, u32::MAX, 1, 1, 1),
        Ok(Wigner3j::Zero)
    ));
    assert!(matches!(wigner_3j(&mut engine, u32::MAX, 1, 1, 0, 0, 0), Ok(Wigner3j::Zero)));
}

#[test]
fn invalid_arguments_are_refused() {
    let mut engine = Wigner3jEngine::new();
    assert!(matches!(
        wigner_3j(&mut engine, 1, 1, 1, 2, -1, -1),
        Err(Wigner3jError::InvalidArguments)
    ));
    assert!(matches!(
        wigner_3j(&mut engine, 1, 1, 1, 1, -2, 1),
        Err(Wigner3jError::InvalidArguments)
    ));
    assert!(matches!(
        wigner_3j(&mut engine, 1, 1, 1, 0, 0, 2),
        Err(Wigner3jError::InvalidArguments)
    ));
    assert!(matches!(
        wigner_3j(&mut engine, 1, 1, 1, i32::MIN, 0, 0),
        Err(Wigner3jError::InvalidArguments)
    ));
    assert!(matches!(
        clebsch_gordan(&mut engine, 1, 0, 1, 0, 1, i32::MIN),
        Err(Wigner3jError::InvalidArguments)
    ));
    assert!(matches!(
        clebsch_gordan(&mut engine, 1, 0, 1, 0, 1, 2),
        Err(Wigner3jError::InvalidArguments)
    ));
}

#[test]
fn capacity_is_limited() {
    let mut engine = Wigner3jEngine::new();
    assert_eq!(MAX_TOTAL_J, 21844);
    assert!(matches!(
        wigner_3j(&mut engine, 10000, 10000, 1845, 0, 0, 0),
        Err(Wigner3jError::CapacityOverflow)
    ));
    assert!(matches!(
        clebsch_gordan(&mut engine, u32::MAX, 0, u32::MAX, 0, u32::MAX, 0),
        Err(Wigner3jError::CapacityOverflow)
    ));
    // the third projection has no negative in 32 bits
    assert!(matches!(
        clebsch_gordan(&mut engine, u32::MAX, 0, u32::MAX, i32::MIN, u32::MAX, i32::MIN),
        Err(Wigner3jError::CapacityOverflow)
    ));
    assert!(matches!(
        clebsch_gordan(&mut engine, u32::MAX, 0, u32::MAX, 0, u32::MAX, i32::MIN),
        Ok(coefficient) if matches!(coefficient.symbol, Wigner3j::Zero)
    ));
}

#[test]
fn symmetries() {
    let mut engine = Wigner3jEngine::new();
    let cases: [(u32, u32, u32, i32, i32, i32); 6] = [
        (5, 3, 2, -3, 3, 0),
        (5, 3, 2, -2, 3, -1),
        (3, 3, 3, 1, -2, 1),
        (4, 4, 3, 2, -3, 1),
        (2, 2, 2, 1, -1, 0),
        (6, 5, 5, 0, 3, -3),
    ];
    for (j1, j2, j3, m1, m2, m3) in cases {
        let value = wigner_3j_value(&mut engine, j1, j2, j3, m1, m2, m3);
        let phase = if (j1 + j2 + j3) % 2 == 0 { 1.0 } else { -1.0 };
        // an even permutation of the columns
        assert!(ulps_eq(wigner_3j_value(&mut engine, j2, j3, j1, m2, m3, m1), value));
        assert!(ulps_eq(wigner_3j_value(&mut engine, j3, j1, j2, m3, m1, m2), value));
        // an odd permutation of the columns
        assert!(ulps_eq(wigner_3j_value(&mut engine, j2, j1, j3, m2, m1, m3), phase * value));
        assert!(ulps_eq(wigner_3j_value(&mut engine, j1, j3, j2, m1, m3, m2), phase * value));
        assert!(ulps_eq(wigner_3j_value(&mut engine, j3, j2, j1, m3, m2, m1), phase * value));
        // the projections negated
        assert!(ulps_eq(wigner_3j_value(&mut engine, j1, j2, j3, -m1, -m2, -m3), phase * value));
    }
}

#[test]
fn cache_is_transparent() {
    let mut engine = Wigner3jEngine::new();
    let first = wigner_3j(&mut engine, 5, 3, 2, -3, 3, 0).unwrap();
    assert!(matches!(first, Wigner3j::Computed { .. }));
    let (value, cached) = evaluate(&mut engine, first);
    assert!(!cached);
    let second = wigner_3j(&mut engine, 5, 3, 2, -3, 3, 0).unwrap();
    assert!(matches!(second, Wigner3j::Cached { .. }));
    let (again, cached) = evaluate(&mut engine, second);
    assert!(cached);
    assert_eq!(value.to_bits(), again.to_bits());
    // the symbol with its projections negated has the same canonical form
    let negated = wigner_3j(&mut engine, 5, 3, 2, 3, -3, 0).unwrap();
    assert!(matches!(negated, Wigner3j::Cached { .. }));
    clear_wigner_3j_cache(&mut engine);
    let third = wigner_3j(&mut engine, 5, 3, 2, -3, 3, 0).unwrap();
    assert!(matches!(third, Wigner3j::Computed { .. }));
    let (after, cached) = evaluate(&mut engine, third);
    assert!(!cached);
    assert_eq!(value.to_bits(), after.to_bits());
}

#[test]
fn cache_drops_the_least_recently_used() {
    let mut engine = Wigner3jEngine::with_capacity(2);
    let a = wigner_3j(&mut engine, 1, 1, 0, 0, 0, 0).unwrap();
    evaluate(&mut engine, a);
    let b = wigner_3j(&mut engine, 1, 1, 2, 0, 0, 0).unwrap();
    evaluate(&mut engine, b);
    // using the first entry makes the second the least recently used
    assert!(matches!(wigner_3j(&mut engine, 1, 1, 0, 0, 0, 0), Ok(Wigner3j::Cached { .. })));
    let c = wigner_3j(&mut engine, 2, 2, 2, 0, 0, 0).unwrap();
    evaluate(&mut engine, c);
    assert!(matches!(wigner_3j(&mut engine, 1, 1, 2, 0, 0, 0), Ok(Wigner3j::Computed { .. })));
    assert!(matches!(wigner_3j(&mut engine, 1, 1, 0, 0, 0, 0), Ok(Wigner3j::Cached { .. })));
    assert!(matches!(wigner_3j(&mut engine, 2, 2, 2, 0, 0, 0), Ok(Wigner3j::Cached { .. })));
}

#[test]
fn cache_of_no_capacity_stays_empty() {
    let mut engine = Wigner3jEngine::with_capacity(0);
    let a = wigner_3j(&mut engine, 1, 1, 0, 0, 0, 0).unwrap();
    evaluate(&mut engine, a);
    assert!(matches!(wigner_3j(&mut engine, 1, 1, 0, 0, 0, 0), Ok(Wigner3j::Computed { .. })));
}

#[test]
fn cached_magnitude_is_what_was_kept() {
    let mut engine = Wigner3jEngine::new();
    let key: Wigner3jCacheKey = series_limits(2, 1, 1, 1, -1, 0);
    assert_eq!(key, (-1, 0, 2, 1, 0));
    cache_wigner_3j(&mut engine, key, 17);
    cache_wigner_3j(&mut engine, key, 42);
    match wigner_3j(&mut engine, 2, 1, 1, 1, -1, 0).unwrap() {
        Wigner3j::Cached { sign, key: found, magnitude } => {
            assert_eq!(found, key);
            assert_eq!(magnitude, 42);
            assert_eq!(sign, -1);
        }
        _ => panic!("the magnitude should come from the cache"),
    }
}

#[test]
fn reorder3j_sorts_the_columns() {
    assert_eq!(reorder3j(5, 3, 2, 3, -3, 0, 1), (5, 3, 2, 3, -3, 0, 1));
    assert_eq!(reorder3j(5, 3, 2, -3, 3, 0, 1), (5, 3, 2, 3, -3, 0, 1));
    assert_eq!(reorder3j(2, 3, 5, 0, 3, -3, 1), (5, 3, 2, 3, -3, 0, 1));
    assert_eq!(reorder3j(2, 3, 6, 0, 3, -3, 1), (6, 3, 2, 3, -3, 0, 1));
    assert_eq!(reorder3j(3, 2, 6, 3, 0, -3, 1), (6, 3, 2, 3, -3, 0, -1));
    assert_eq!(reorder3j(3, 2, 6, 3, 0, -3, -1), (6, 3, 2, 3, -3, 0, 1));
    assert_eq!(reorder3j(1, 1, 1, 0, -1, 1, 1), (1, 1, 1, 0, 1, -1, -1));
    assert_eq!(reorder3j(1, 1, 1, 0, 0, 0, 1), (1, 1, 1, 0, 0, 0, 1));
    // columns of the same angular momentum keep their order
    assert_eq!(reorder3j(2, 3, 3, 0, 1, -1, 1), (3, 3, 2, 1, -1, 0, 1));
}

#[test]
fn triangle_condition_holds_and_fails() {
    assert!(triangle_condition(1, 1, 2));
    assert!(triangle_condition(1, 1, 0));
    assert!(triangle_condition(0, 0, 0));
    assert!(!triangle_condition(1, 1, 3));
    assert!(!triangle_condition(4, 1, 2));
    assert!(!triangle_condition(1, 4, 2));
    assert!(triangle_condition(u32::MAX, u32::MAX, u32::MAX));
    assert!(!triangle_condition(u32::MAX, 0, 0));
}

#[test]
fn max_and_min_of_three() {
    assert_eq!(max(1, 2, 3), 3);
    assert_eq!(max(3, 2, 1), 3);
    assert_eq!(max(-1, 5, 5), 5);
    assert_eq!(min(1, 2, 3), 1);
    assert_eq!(min(3, 2, -7), -7);
    assert_eq!(min(4, -2, 9), -2);
}

#[test]
fn triangle_coefficient_in_lowest_terms() {
    let mut primes = Primes::new();
    let table = FactorialTable::new(&mut primes);
    // 1! 1! 1! / 4!
    let coefficient = triangle_coefficient(1, 1, 1, &table, &mut primes);
    assert_eq!(coefficient.numerator, PrimeFactorization::new(1, &mut primes));
    assert_eq!(coefficient.denominator, PrimeFactorization::new(24, &mut primes));
    // 4! 0! 8! / 13! = 1 / 6435
    let coefficient = triangle_coefficient(2, 6, 4, &table, &mut primes);
    assert_eq!(coefficient.numerator, PrimeFactorization::new(1, &mut primes));
    assert_eq!(coefficient.denominator, PrimeFactorization::new(6435, &mut primes));
}

#[test]
fn series_over_the_common_denominator() {
    let mut primes = Primes::new();
    let table = FactorialTable::new(&mut primes);
    // the symbol (1 1 0; 0 0 0): the terms are 1 / (0! 1! 1! 2! 1! 1!), -1 / (1! 2! 2! 1! 0! 0!)
    let key = series_limits(1, 1, 0, 0, 0, 0);
    assert_eq!(key, (1, 1, 2, 1, 1));
    let (numerators, denominator) = compute_3j_series(key.2, key.3, key.4, key.0, key.1, &table, &mut primes);
    assert_eq!(numerators.len(), 1);
    assert_eq!(denominator.factors.to_vec(), Vec::<u16>::new());
    assert_eq!(numerators[0], PrimeFactorization::new(-1, &mut primes));
    // the symbol (2 2 2; 0 0 0) has three terms, under them 8, 1 and 8
    let key = series_limits(2, 2, 2, 0, 0, 0);
    assert_eq!(key, (0, 0, 2, 2, 2));
    let (numerators, denominator) = compute_3j_series(key.2, key.3, key.4, key.0, key.1, &table, &mut primes);
    assert_eq!(denominator.sign, 1);
    assert_eq!(denominator.factors.to_vec(), vec![3]);
    assert_eq!(numerators.len(), 3);
    assert_eq!(numerators[0], PrimeFactorization::new(1, &mut primes));
    assert_eq!(numerators[1], PrimeFactorization::new(-8, &mut primes));
    assert_eq!(numerators[2], PrimeFactorization::new(1, &mut primes));
    // no term: the denominator is one
    let (numerators, denominator) = compute_3j_series(1, 1, 1, 2, 0, &table, &mut primes);
    assert!(numerators.is_empty());
    assert_eq!(denominator, PrimeFactorization::new(1, &mut primes));
}

#[test]
fn common_denominator_rescales() {
    let mut primes = Primes::new();
    // 1/4, -1/6, 5/9 over 36 are 9, -6, 20
    let mut numerators = vec![
        PrimeFactorization::new(1, &mut primes),
        PrimeFactorization::new(-1, &mut primes),
        PrimeFactorization::new(5, &mut primes),
    ];
    let denominators = vec![
        PrimeFactorization::new(4, &mut primes),
        PrimeFactorization::new(6, &mut primes),
        PrimeFactorization::new(9, &mut primes),
    ];
    let denominator = common_denominator(&mut numerators, &denominators);
    assert_eq!(denominator, PrimeFactorization::new(36, &mut primes));
    assert_eq!(numerators[0], PrimeFactorization::new(9, &mut primes));
    assert_eq!(numerators[1], PrimeFactorization::new(-6, &mut primes));
    assert_eq!(numerators[2], PrimeFactorization::new(20, &mut primes));
    let mut none: Vec<PrimeFactorization> = Vec::new();
    assert_eq!(common_denominator(&mut none, &Vec::new()), PrimeFactorization::new(1, &mut primes));
}

#[test]
fn exact_magnitude_of_a_small_symbol() {
    let mut primes = Primes::new();
    let table = FactorialTable::new(&mut primes);
    // (2 2 2; 0 0 0) = -sqrt(2 / 35): the series sums to -6 over 8, and
    // under the root stands (2!)^3 / 7! * (2!)^6 / 8^2 = 8 / 5040 = 1 / 630
    let (series, root) = exact_magnitude(2, 2, 2, 0, 0, 0, &table, &mut primes);
    assert_eq!(series.len(), 3);
    assert_eq!(root.numerator, PrimeFactorization::new(1, &mut primes));
    assert_eq!(root.denominator, PrimeFactorization::new(630, &mut primes));
    let mut engine = Wigner3jEngine::new();
    let value = wigner_3j_value(&mut engine, 2, 2, 2, 0, 0, 0);
    assert!(ulps_eq(value, -f64::sqrt(2.0 / 35.0)));
}

#[test]
fn clebsch_gordan_array_cells() {
    assert_eq!(clebsch_gordan_array(1, 0, 1, 8), Err(SizeMismatch { expected: 9 }));
    assert_eq!(clebsch_gordan_array(1, 0, 1, 10), Err(SizeMismatch { expected: 9 }));
    assert_eq!(
        clebsch_gordan_array(u32::MAX, u32::MAX, u32::MAX, 0),
        Err(SizeMismatch { expected: 8589934591 * 8589934591 * 8589934591 })
    );
    let cells = clebsch_gordan_array(1, 0, 1, 9).unwrap();
    assert_eq!(
        cells,
        vec![
            (-1, 0, -1),
            (-1, 0, 0),
            (-1, 0, 1),
            (0, 0, -1),
            (0, 0, 0),
            (0, 0, 1),
            (1, 0, -1),
            (1, 0, 0),
            (1, 0, 1)
        ]
    );
    let cells = clebsch_gordan_array(1, 2, 3, 105).unwrap();
    assert_eq!(cells[0], (-1, -2, -3));
    assert_eq!(cells[6], (-1, -2, 3));
    assert_eq!(cells[7], (-1, -1, -3));
    assert_eq!(cells[35], (0, -2, -3));
    assert_eq!(cells[104], (1, 2, 3));
    assert_eq!(clebsch_gordan_array(0, 0, 0, 1).unwrap(), vec![(0, 0, 0)]);
}

#[test]
fn clebsch_gordan_array_values() {
    let mut engine = Wigner3jEngine::new();
    let cells = clebsch_gordan_array(1, 1, 2, 45).unwrap();
    let mut output = vec![0.0; 45];
    for (cell, (m1, m2, m3)) in output.iter_mut().zip(cells) {
        *cell = clebsch_gordan_value(&mut engine, 1, m1 as i32, 1, m2 as i32, 2, m3 as i32);
    }
    // <1 1; 1 1 | 2 2> is the last cell
    assert_eq!(output[44], 1.0);
    // <1 -1; 1 -1 | 2 -2> is the first
    assert_eq!(output[0], 1.0);
    // <1 0; 1 0 | 2 0> = sqrt(2 / 3)
    assert!(ulps_eq(output[22], f64::sqrt(2.0 / 3.0)));
    // <1 1; 1 -1 | 2 0> = sqrt(1 / 6)
    assert!(ulps_eq(output[(2 * 3 + 0) * 5 + 2], f64::sqrt(1.0 / 6.0)));
    // the projections do not add up
    assert_eq!(output[1], 0.0);
}

#[test]
fn real_combinations() {
    let none = RealCombination { halved: false, same: 0, second_negated: 0, first_negated: 0, both_negated: 0 };
    let one = RealCombination { same: 1, ..none };
    for odd in [false, true] {
        assert_eq!(real_combination(odd, 0, 0, 0), one);
    }
    // an even sum of the angular momenta
    assert_eq!(real_combination(false, 1, 1, 0), RealCombination { second_negated: -1, ..none });
    assert_eq!(real_combination(false, -2, -2, 0), RealCombination { second_negated: 1, ..none });
    assert_eq!(real_combination(false, 0, 3, 3), one);
    assert_eq!(real_combination(false, -1, 0, -1), one);
    assert_eq!(
        real_combination(false, 1, 2, 3),
        RealCombination { halved: true, same: 1, second_negated: 1, first_negated: -1, both_negated: -1 }
    );
    assert_eq!(
        real_combination(false, 1, -2, -1),
        RealCombination { halved: true, same: -1, second_negated: 1, first_negated: 1, both_negated: -1 }
    );
    assert_eq!(
        real_combination(false, -1, 2, -1),
        RealCombination { halved: true, same: 1, second_negated: 1, first_negated: 1, both_negated: 1 }
    );
    assert_eq!(
        real_combination(false, -1, -2, 3),
        RealCombination { halved: true, same: 1, second_negated: -1, first_negated: 1, both_negated: -1 }
    );
    assert_eq!(real_combination(false, 1, 2, -3), none);
    assert_eq!(real_combination(false, 1, -1, 0), none);
    // an odd sum of the angular momenta
    assert_eq!(real_combination(true, 1, -1, 0), RealCombination { same: 1, ..none });
    assert_eq!(real_combination(true, 2, -2, 0), RealCombination { same: -1, ..none });
    assert_eq!(real_combination(true, 0, 2, -2), RealCombination { second_negated: 1, ..none });
    assert_eq!(real_combination(true, 3, 0, -3), RealCombination { first_negated: 1, ..none });
    assert_eq!(
        real_combination(true, 1, 2, -3),
        RealCombination { halved: true, same: -1, second_negated: -1, first_negated: 1, both_negated: 1 }
    );
    assert_eq!(
        real_combination(true, 1, -2, 1),
        RealCombination { halved: true, same: -1, second_negated: 1, first_negated: 1, both_negated: -1 }
    );
    assert_eq!(
        real_combination(true, -1, 2, 1),
        RealCombination { halved: true, same: 1, second_negated: 1, first_negated: 1, both_negated: 1 }
    );
    assert_eq!(
        real_combination(true, -1, -2, -1),
        RealCombination { halved: true, same: -1, second_negated: 1, first_negated: -1, both_negated: 1 }
    );
    assert_eq!(real_combination(true, 1, 2, 3), none);
    assert_eq!(real_combination(true, i32::MIN, i32::MIN, 0), none);
    assert_eq!(real_combination(false, i32::MIN, i32::MIN, 0), RealCombination { second_negated: 1, ..none });
}
