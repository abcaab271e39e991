use wigners::factorial::{compute_factorial, factorial, CapacityOverflow, FactorialTable};
use wigners::factorization::{DivisionError, PrimeFactorization};
use wigners::primes::{primes, Primes};
use wigners::rational::Rational;

fn float_of(factorization: &PrimeFactorization, primes: &mut Primes) -> f64 {
    let mut result = factorization.sign as f64;
    for (index, power) in factorization.factors.to_vec().into_iter().enumerate() {
        let prime = primes.checked_get(index).expect("prime above 32 bits") as f64;
        result *= prime.powi(power as i32);
    }
    result
}

#[test]
fn prime_factorize() {
    let mut primes = Primes::new();
    let zero = PrimeFactorization::new(0, &mut primes);
    assert_eq!(zero.sign, 0);
    assert_eq!(zero.factors.to_vec().len(), 0);

    let one = PrimeFactorization::new(1, &mut primes);
    assert_eq!(one.sign, 1);
    assert_eq!(one.factors.to_vec().len(), 1);
    assert_eq!(one.factors.to_vec()[0], 0);

    let m_one = PrimeFactorization::new(-1, &mut primes);
    assert_eq!(m_one.sign, -1);
    assert_eq!(m_one.factors.to_vec()[0], 0);

    let five = PrimeFactorization::new(5, &mut primes);
    assert_eq!(five.sign, 1);
    assert_eq!(five.factors.to_vec().len(), 3);
    assert_eq!(five.factors.to_vec().as_slice(), [0, 0, 1]);

    let m_twenty = PrimeFactorization::new(-20, &mut primes);
    assert_eq!(m_twenty.sign, -1);
    assert_eq!(m_twenty.factors.to_vec().len(), 3);
    assert_eq!(m_twenty.factors.to_vec().as_slice(), [2, 0, 1]);

    // outside of the initial range of primes
    assert_eq!(primes.extra_len(), 1);
    let seventeen = PrimeFactorization::new(7949, &mut primes);
    assert_eq!(seventeen.sign, 1);
    assert_eq!(seventeen.factors.to_vec().len(), 1004);
    // we now have more extra primes
    assert_eq!(primes.extra_len(), 4);
}

#[test]
fn as_f64() {
    let mut primes = Primes::new();
    assert_eq!(float_of(&PrimeFactorization::new(0, &mut primes), &mut primes), 0.0);
    assert_eq!(float_of(&PrimeFactorization::new(1, &mut primes), &mut primes), 1.0);
    assert_eq!(float_of(&PrimeFactorization::new(-1, &mut primes), &mut primes), -1.0);
    assert_eq!(float_of(&PrimeFactorization::new(1020, &mut primes), &mut primes), 1020.0);
}

#[test]
fn test_mul() {
    let mut primes = Primes::new();
    let zero = PrimeFactorization::new(0, &mut primes);
    let one = PrimeFactorization::new(1, &mut primes);
    let five = PrimeFactorization::new(5, &mut primes);
    let m_twenty = PrimeFactorization::new(-20, &mut primes);

    assert_eq!(five.clone().mul(m_twenty.clone()), PrimeFactorization::new(-100, &mut primes));
    assert_eq!(m_twenty.clone().mul(five.clone()), PrimeFactorization::new(-100, &mut primes));

    // 0 x whatever is zero
    assert_eq!(zero.clone().mul(one.clone()), zero);
    assert_eq!(zero.clone().mul(m_twenty.clone()), zero);
    assert_eq!(one.clone().mul(zero.clone()), zero);
    assert_eq!(m_twenty.clone().mul(zero.clone()), zero);

    // 1 x whatever is whatever
    assert_eq!(one.clone().mul(five.clone()), five);
    assert_eq!(one.clone().mul(m_twenty.clone()), m_twenty);
    assert_eq!(five.clone().mul(one.clone()), five);
    assert_eq!(m_twenty.clone().mul(one.clone()), m_twenty);

    // a few sign tests
    assert_eq!(
        PrimeFactorization::new(-2, &mut primes).mul(PrimeFactorization::new(-2, &mut primes)),
        PrimeFactorization::new(4, &mut primes)
    );
    assert_eq!(
        PrimeFactorization::new(-2, &mut primes).mul(PrimeFactorization::new(2, &mut primes)),
        PrimeFactorization::new(-4, &mut primes)
    );
    assert_eq!(
        PrimeFactorization::new(2, &mut primes).mul(PrimeFactorization::new(2, &mut primes)),
        PrimeFactorization::new(4, &mut primes)
    );
    assert_eq!(
        PrimeFactorization::new(2, &mut primes).mul(PrimeFactorization::new(-2, &mut primes)),
        PrimeFactorization::new(-4, &mut primes)
    );
}

#[test]
fn test_div() {
    let mut primes = Primes::new();
    let zero = PrimeFactorization::new(0, &mut primes);
    let one = PrimeFactorization::new(1, &mut primes);
    let five = PrimeFactorization::new(5, &mut primes);
    let m_twenty = PrimeFactorization::new(-20, &mut primes);

    assert_eq!(
        m_twenty.clone().div(five.clone()).unwrap(),
        PrimeFactorization::new(-4, &mut primes)
    );

    // 0 / whatever is zero
    assert_eq!(zero.clone().div(one.clone()).unwrap(), zero);
    assert_eq!(zero.clone().div(m_twenty.clone()).unwrap(), zero);

    // whatever / 1 is whatever
    assert_eq!(five.clone().div(one.clone()).unwrap(), five);
    assert_eq!(m_twenty.clone().div(one.clone()).unwrap(), m_twenty);

    // a few sign tests
    assert_eq!(
        PrimeFactorization::new(-2, &mut primes)
            .div(PrimeFactorization::new(-2, &mut primes))
            .unwrap(),
        PrimeFactorization::new(1, &mut primes)
    );
    assert_eq!(
        PrimeFactorization::new(-2, &mut primes)
            .div(PrimeFactorization::new(2, &mut primes))
            .unwrap(),
        PrimeFactorization::new(-1, &mut primes)
    );
    assert_eq!(
        PrimeFactorization::new(2, &mut primes)
            .div(PrimeFactorization::new(2, &mut primes))
            .unwrap(),
        PrimeFactorization::new(1, &mut primes)
    );
    assert_eq!(
        PrimeFactorization::new(2, &mut primes)
            .div(PrimeFactorization::new(-2, &mut primes))
            .unwrap(),
        PrimeFactorization::new(-1, &mut primes)
    );
}

#[test]
#[should_panic = "attempt to divide by zero"]
fn test_div_by_zero() {
    let mut primes = Primes::new();
    let _ = PrimeFactorization::new(1, &mut primes)
        .div(PrimeFactorization::new(0, &mut primes))
        .expect("attempt to divide by zero");
}

#[test]
#[should_panic = "can not divide if the factorization do not have common prime factor"]
fn test_div_no_common_factors() {
    let mut primes = Primes::new();
    let _ = PrimeFactorization::new(5, &mut primes)
        .div(PrimeFactorization::new(7, &mut primes))
        .expect("can not divide if the factorization do not have common prime factor");
}

#[test]
fn test_factorial() {
    let mut primes = Primes::new();
    let table = FactorialTable::new(&mut primes);
    let factorial_200 = factorial(200, &table, &mut primes).unwrap();
    // checked with wolfram alpha
    assert_eq!(
        factorial_200.factors.to_vec().as_slice(),
        [
            197, 97, 49, 32, 19, 16, 11, 10, 8, 6, 6, 5, 4, 4, 4, 3, 3, 3, 2, 2, 2, 2, 2, 2, 2, 1,
            1, 1, 1, 1, 1, 1, 1, 1, 1, 1, 1, 1, 1, 1, 1, 1, 1, 1, 1, 1
        ]
    );
}

#[test]
fn division_errors_leave_the_dividend() {
    let mut primes = Primes::new();
    let mut five = PrimeFactorization::new(5, &mut primes);
    let seven = PrimeFactorization::new(7, &mut primes);
    let zero = PrimeFactorization::new(0, &mut primes);
    assert_eq!(five.div_assign(&seven), Err(DivisionError::NonExactDivision));
    assert_eq!(five, PrimeFactorization::new(5, &mut primes));
    assert_eq!(five.div_assign(&zero), Err(DivisionError::DivisionByZero));
    assert_eq!(five, PrimeFactorization::new(5, &mut primes));
    // a higher power of a prime that the dividend holds does not divide it either
    let mut twelve = PrimeFactorization::new(12, &mut primes);
    let eight = PrimeFactorization::new(8, &mut primes);
    assert_eq!(twelve.div_assign(&eight), Err(DivisionError::NonExactDivision));
    assert_eq!(twelve.div_assign(&PrimeFactorization::new(4, &mut primes)), Ok(()));
    assert_eq!(twelve, PrimeFactorization::new(3, &mut primes));
    // zero by zero is a division by zero
    let mut nothing = PrimeFactorization::zero();
    assert_eq!(nothing.div_assign(&zero), Err(DivisionError::DivisionByZero));
}

#[test]
fn primes_come_in_order() {
    let mut source = Primes::new();
    assert_eq!(source.get(0), 2);
    assert_eq!(source.get(1), 3);
    assert_eq!(source.get(999), 7919);
    assert_eq!(source.lookup(1000), Some(7927));
    assert_eq!(source.lookup(1001), None);
    assert_eq!(source.get(1003), 7949);
    assert_eq!(source.lookup(1001), Some(7933));
    assert_eq!(source.lookup(1002), Some(7937));
    assert_eq!(source.extra_len(), 4);
    assert_eq!(source.checked_get(1008), Some(8011));
    assert_eq!(source.checked_get(1009), Some(8017));
    let mut iter = primes();
    let mut first = Vec::new();
    for _ in 0..10 {
        first.push(iter.next(&mut source).unwrap());
    }
    assert_eq!(first, vec![2, 3, 5, 7, 11, 13, 17, 19, 23, 29]);
}

#[test]
fn factorization_of_the_extremes() {
    let mut primes = Primes::new();
    let least = PrimeFactorization::new(i32::MIN, &mut primes);
    assert_eq!(least.sign, -1);
    assert_eq!(least.factors.to_vec(), vec![31]);
    let large = PrimeFactorization::new(2 * 3 * 3 * 7927, &mut primes);
    let exponents = large.factors.to_vec();
    assert_eq!(exponents.len(), 1001);
    assert_eq!(exponents[0], 1);
    assert_eq!(exponents[1], 2);
    assert_eq!(exponents[1000], 1);
    assert_eq!(exponents.iter().map(|&e| e as u32).sum::<u32>(), 4);
}

#[test]
fn one_and_minus_one() {
    let mut primes = Primes::new();
    assert_eq!(PrimeFactorization::one(), PrimeFactorization::new(1, &mut primes));
    assert_eq!(PrimeFactorization::minus_one(), PrimeFactorization::new(-1, &mut primes));
    assert_eq!(PrimeFactorization::zero(), PrimeFactorization::new(0, &mut primes));
}

#[test]
fn simplify_factors_trims() {
    let mut primes = Primes::new();
    // 12 / 3 leaves a zero at the end before it is trimmed
    let four = PrimeFactorization::new(12, &mut primes)
        .div(PrimeFactorization::new(3, &mut primes))
        .unwrap();
    assert_eq!(four.factors.to_vec(), vec![2]);
    let mut lcm = PrimeFactorization::new(4, &mut primes);
    lcm.least_common_multiple(&PrimeFactorization::new(1, &mut primes));
    lcm.simplify_factors();
    assert_eq!(lcm, PrimeFactorization::new(4, &mut primes));
}

#[test]
fn least_common_multiple_takes_the_greater_exponents() {
    let mut primes = Primes::new();
    let mut twelve = PrimeFactorization::new(12, &mut primes);
    twelve.least_common_multiple(&PrimeFactorization::new(90, &mut primes));
    assert_eq!(twelve, PrimeFactorization::new(180, &mut primes));
    let mut negative = PrimeFactorization::new(-4, &mut primes);
    negative.least_common_multiple(&PrimeFactorization::new(-6, &mut primes));
    assert_eq!(negative, PrimeFactorization::new(12, &mut primes));
    let mut short = PrimeFactorization::new(2, &mut primes);
    short.least_common_multiple(&PrimeFactorization::new(7, &mut primes));
    assert_eq!(short.factors.to_vec(), vec![1, 0, 0, 1]);
}

#[test]
fn factorials_match_the_standard_factorial() {
    let mut primes = Primes::new();
    let table = FactorialTable::new(&mut primes);
    let mut expected: f64 = 1.0;
    let mut previous = factorial(0, &table, &mut primes).unwrap();
    assert_eq!(float_of(&previous, &mut primes), 1.0);
    for n in 1..=20u32 {
        expected *= n as f64;
        let current = factorial(n, &table, &mut primes).unwrap();
        assert_eq!(float_of(&current, &mut primes), expected);
        // n! = n x (n - 1)!
        let mut product = PrimeFactorization::new(n as i32, &mut primes).mul(previous);
        product.simplify_factors();
        let mut simplified = current.clone();
        simplified.simplify_factors();
        assert_eq!(product, simplified);
        previous = current;
    }
}

#[test]
fn factorial_table_and_computation_agree() {
    let mut primes = Primes::new();
    let table = FactorialTable::new(&mut primes);
    for n in [0u32, 1, 2, 5, 50, 99, 100, 101, 150] {
        assert_eq!(
            factorial(n, &table, &mut primes).unwrap(),
            compute_factorial(n, &mut primes).unwrap()
        );
    }
    assert_eq!(factorial(0, &table, &mut primes).unwrap().factors.to_vec(), Vec::<u16>::new());
    assert_eq!(factorial(4, &table, &mut primes).unwrap().factors.to_vec(), vec![3, 1]);
    assert_eq!(factorial(10, &table, &mut primes).unwrap().factors.to_vec(), vec![8, 4, 2, 1]);
}

#[test]
fn factorial_capacity() {
    let mut primes = Primes::new();
    let table = FactorialTable::new(&mut primes);
    // the exponent of 2 in 65537! is 65535, and in 65538! it is 65536
    let largest = factorial(65537, &table, &mut primes).unwrap();
    assert_eq!(largest.factors.to_vec()[0], 65535);
    assert_eq!(factorial(65538, &table, &mut primes), Err(CapacityOverflow));
    assert_eq!(compute_factorial(u32::MAX, &mut primes), Err(CapacityOverflow));
}

#[test]
fn rational_new_and_simplify() {
    let mut primes = Primes::new();
    let rational = Rational::new(
        PrimeFactorization::new(6, &mut primes),
        PrimeFactorization::new(-4, &mut primes),
    );
    assert_eq!(rational.numerator, PrimeFactorization::new(-6, &mut primes));
    assert_eq!(rational.denominator, PrimeFactorization::new(4, &mut primes));
    let mut reduced = rational.clone();
    reduced.simplify();
    assert_eq!(reduced.numerator, PrimeFactorization::new(-3, &mut primes));
    assert_eq!(reduced.denominator, PrimeFactorization::new(2, &mut primes));
    let mut whole = Rational::new(
        PrimeFactorization::new(10, &mut primes),
        PrimeFactorization::new(5, &mut primes),
    );
    whole.simplify();
    assert_eq!(whole.numerator, PrimeFactorization::new(2, &mut primes));
    assert_eq!(whole.denominator, PrimeFactorization::new(1, &mut primes));
}

#[test]
fn rational_mul_assign() {
    let mut primes = Primes::new();
    let mut product = Rational::new(
        PrimeFactorization::new(-3, &mut primes),
        PrimeFactorization::new(4, &mut primes),
    );
    let factor = Rational::new(
        PrimeFactorization::new(-2, &mut primes),
        PrimeFactorization::new(9, &mut primes),
    );
    product.mul_assign(&factor);
    assert_eq!(product.numerator, PrimeFactorization::new(6, &mut primes));
    assert_eq!(product.denominator, PrimeFactorization::new(36, &mut primes));
    product.simplify();
    assert_eq!(product.numerator, PrimeFactorization::new(1, &mut primes));
    assert_eq!(product.denominator, PrimeFactorization::new(6, &mut primes));
}

#[test]
fn prime_powers_of_factorizations() {
    let mut primes = Primes::new();
    let m_twenty = PrimeFactorization::new(-20, &mut primes);
    assert_eq!(m_twenty.prime_powers(&mut primes), Some(vec![(2, 2), (5, 1)]));
    assert_eq!(PrimeFactorization::one().prime_powers(&mut primes), Some(vec![]));
    assert_eq!(PrimeFactorization::zero().prime_powers(&mut primes), Some(vec![]));
    let large = PrimeFactorization::new(3 * 7933, &mut primes);
    assert_eq!(large.prime_powers(&mut primes), Some(vec![(3, 1), (7933, 1)]));
}
