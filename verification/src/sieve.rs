//! A sieve by the primes up to 89, which tells the primes below `97 * 97`
//! from the other numbers, and the primes below 8000 as it finds them.
use crate::primality::{
    is_next_prime, is_prime, lemma_divides_transitive, lemma_divisor_bound, lemma_exact_quotient,
    lemma_prime_divisor,
};
use vstd::prelude::*;

verus! {

/// Whether `n` is one of the primes up to 89.
pub open spec fn is_small_prime(n: int) -> bool {
    ||| n == 2
    ||| n == 3
    ||| n == 5
    ||| n == 7
    ||| n == 11
    ||| n == 13
    ||| n == 17
    ||| n == 19
    ||| n == 23
    ||| n == 29
    ||| n == 31
    ||| n == 37
    ||| n == 41
    ||| n == 43
    ||| n == 47
    ||| n == 53
    ||| n == 59
    ||| n == 61
    ||| n == 67
    ||| n == 71
    ||| n == 73
    ||| n == 79
    ||| n == 83
    ||| n == 89
}

/// Whether each prime up to 89 either is `n` or does not divide it. From 2 up
/// to `97 * 97` this is primality.
#[verifier::opaque]
pub open spec fn passes_sieve(n: int) -> bool {
    &&& (n % 2 != 0 || n == 2)
    &&& (n % 3 != 0 || n == 3)
    &&& (n % 5 != 0 || n == 5)
    &&& (n % 7 != 0 || n == 7)
    &&& (n % 11 != 0 || n == 11)
    &&& (n % 13 != 0 || n == 13)
    &&& (n % 17 != 0 || n == 17)
    &&& (n % 19 != 0 || n == 19)
    &&& (n % 23 != 0 || n == 23)
    &&& (n % 29 != 0 || n == 29)
    &&& (n % 31 != 0 || n == 31)
    &&& (n % 37 != 0 || n == 37)
    &&& (n % 41 != 0 || n == 41)
    &&& (n % 43 != 0 || n == 43)
    &&& (n % 47 != 0 || n == 47)
    &&& (n % 53 != 0 || n == 53)
    &&& (n % 59 != 0 || n == 59)
    &&& (n % 61 != 0 || n == 61)
    &&& (n % 67 != 0 || n == 67)
    &&& (n % 71 != 0 || n == 71)
    &&& (n % 73 != 0 || n == 73)
    &&& (n % 79 != 0 || n == 79)
    &&& (n % 83 != 0 || n == 83)
    &&& (n % 89 != 0 || n == 89)
}

/// Whether none of `a`, `a + 2`, ... below `b` passes the sieve.
pub open spec fn gap_is_clear(a: int, b: int) -> bool
    decreases b - a + 2,
{
    a >= b || (!passes_sieve(a) && gap_is_clear(a + 2, b))
}

/// Whether `q`, above `p` and below `97 * 97`, passes the sieve and no odd
/// number between the odd `p` and `q` does.
pub open spec fn follows(p: int, q: int) -> bool {
    p < q < 9409 && passes_sieve(q) && gap_is_clear(p + 2, q)
}

/// Whether each of ten numbers follows the one before it, the first of them `p`.
#[verifier::opaque]
pub open spec fn row_follows(
    p: int,
    q0: int,
    q1: int,
    q2: int,
    q3: int,
    q4: int,
    q5: int,
    q6: int,
    q7: int,
    q8: int,
    q9: int,
) -> bool {
    &&& follows(p, q0)
    &&& follows(q0, q1)
    &&& follows(q1, q2)
    &&& follows(q2, q3)
    &&& follows(q3, q4)
    &&& follows(q4, q5)
    &&& follows(q5, q6)
    &&& follows(q6, q7)
    &&& follows(q7, q8)
    &&& follows(q8, q9)
}

/// Whether, of each number from 2 to `n`, the sieve lets it pass only if it is
/// one of the primes up to 89.
spec fn small_primes_checked(n: int) -> bool
    decreases n,
{
    n < 2 || ((!passes_sieve(n) || is_small_prime(n)) && small_primes_checked(n - 1))
}

/// A prime is divisible by no number from two on but itself.
proof fn lemma_prime_indivisible(n: int, q: int)
    requires
        is_prime(n),
        q >= 2,
    ensures
        n % q != 0 || n == q,
{
    if q > n {
        vstd::arithmetic::div_mod::lemma_small_mod(n as nat, q as nat);
    }
}

/// A prime passes the sieve.
proof fn lemma_prime_passes_sieve(n: int)
    requires
        is_prime(n),
    ensures
        passes_sieve(n),
{
    reveal(passes_sieve);
    lemma_prime_indivisible(n, 2);
    lemma_prime_indivisible(n, 3);
    lemma_prime_indivisible(n, 5);
    lemma_prime_indivisible(n, 7);
    lemma_prime_indivisible(n, 11);
    lemma_prime_indivisible(n, 13);
    lemma_prime_indivisible(n, 17);
    lemma_prime_indivisible(n, 19);
    lemma_prime_indivisible(n, 23);
    lemma_prime_indivisible(n, 29);
    lemma_prime_indivisible(n, 31);
    lemma_prime_indivisible(n, 37);
    lemma_prime_indivisible(n, 41);
    lemma_prime_indivisible(n, 43);
    lemma_prime_indivisible(n, 47);
    lemma_prime_indivisible(n, 53);
    lemma_prime_indivisible(n, 59);
    lemma_prime_indivisible(n, 61);
    lemma_prime_indivisible(n, 67);
    lemma_prime_indivisible(n, 71);
    lemma_prime_indivisible(n, 73);
    lemma_prime_indivisible(n, 79);
    lemma_prime_indivisible(n, 83);
    lemma_prime_indivisible(n, 89);
}

/// What was checked of the numbers up to `hi` holds of each of them.
proof fn lemma_small_primes_checked(hi: int, n: int)
    requires
        small_primes_checked(hi),
        2 <= n <= hi,
    ensures
        passes_sieve(n) ==> is_small_prime(n),
    decreases hi - n,
{
    if n < hi {
        lemma_small_primes_checked(hi - 1, n);
    }
}

/// A prime below 97 is one of the primes up to 89.
pub proof fn lemma_primes_below_97(n: int)
    requires
        is_prime(n),
        n < 97,
    ensures
        is_small_prime(n),
{
    assert(small_primes_checked(96)) by {
        reveal(passes_sieve);
        reveal_with_fuel(small_primes_checked, 17);
        assert(small_primes_checked(16));
        assert(small_primes_checked(32));
        assert(small_primes_checked(48));
        assert(small_primes_checked(64));
        assert(small_primes_checked(80));
    }
    lemma_small_primes_checked(96, n);
    lemma_prime_passes_sieve(n);
}

/// From 2 up to `97 * 97`, what passes the sieve is prime.
pub proof fn lemma_sieve_sound(n: int)
    requires
        2 <= n < 9409,
        passes_sieve(n),
    ensures
        is_prime(n),
{
    if !is_prime(n) {
        let d = choose|d: int| 2 <= d < n && #[trigger] (n % d) == 0;
        let e = n / d;
        lemma_exact_quotient(n, d);
        lemma_divisor_bound(d, n);
        assert(2 <= e < n && (d <= 96 || e <= 96) && n == e * d) by (nonlinear_arith)
            requires
                n == d * e,
                2 <= d < n,
                n < 9409,
                e >= 1,
        ;
        let m = if d <= 96 {
            d
        } else {
            e
        };
        assert(n % m == 0) by {
            if m == e {
                vstd::arithmetic::div_mod::lemma_mod_multiples_basic(d, e);
            }
        }
        let q = lemma_prime_divisor(m);
        lemma_divides_transitive(q, m, n);
        lemma_primes_below_97(q);
        reveal(passes_sieve);
    }
}

/// Between an odd number and a number that follows it there is no prime.
proof fn lemma_gap_has_no_prime(a: int, b: int, r: int)
    requires
        5 <= a,
        a % 2 == 1,
        gap_is_clear(a, b),
        a - 1 <= r < b,
    ensures
        !is_prime(r),
    decreases b - a + 2,
{
    if r == a - 1 {
        if is_prime(r) {
            assert(r % 2 != 0);
        }
    } else if r == a {
        if is_prime(r) {
            lemma_prime_passes_sieve(r);
        }
    } else {
        lemma_gap_has_no_prime(a + 2, b, r);
    }
}

/// A number that follows an odd number is the next prime after it.
pub proof fn lemma_follows(p: int, q: int)
    requires
        3 <= p,
        p % 2 == 1,
        follows(p, q),
    ensures
        is_next_prime(p, q),
{
    lemma_sieve_sound(q);
    assert forall|r: int| p < r < q implies !is_prime(r) by {
        lemma_gap_has_no_prime(p + 2, q, r);
    }
}

/// The primes from 29 to 541: each number follows the one before.
pub proof fn lemma_rows_from_1()
    ensures
        row_follows(29, 31, 37, 41, 43, 47, 53, 59, 61, 67, 71),
        row_follows(71, 73, 79, 83, 89, 97, 101, 103, 107, 109, 113),
        row_follows(113, 127, 131, 137, 139, 149, 151, 157, 163, 167, 173),
        row_follows(173, 179, 181, 191, 193, 197, 199, 211, 223, 227, 229),
        row_follows(229, 233, 239, 241, 251, 257, 263, 269, 271, 277, 281),
        row_follows(281, 283, 293, 307, 311, 313, 317, 331, 337, 347, 349),
        row_follows(349, 353, 359, 367, 373, 379, 383, 389, 397, 401, 409),
        row_follows(409, 419, 421, 431, 433, 439, 443, 449, 457, 461, 463),
        row_follows(463, 467, 479, 487, 491, 499, 503, 509, 521, 523, 541),
{
    reveal(passes_sieve);
    reveal(row_follows);
    reveal_with_fuel(gap_is_clear, 20);
}

/// The primes from 541 to 1223: each number follows the one before.
pub proof fn lemma_rows_from_10()
    ensures
        row_follows(541, 547, 557, 563, 569, 571, 577, 587, 593, 599, 601),
        row_follows(601, 607, 613, 617, 619, 631, 641, 643, 647, 653, 659),
        row_follows(659, 661, 673, 677, 683, 691, 701, 709, 719, 727, 733),
        row_follows(733, 739, 743, 751, 757, 761, 769, 773, 787, 797, 809),
        row_follows(809, 811, 821, 823, 827, 829, 839, 853, 857, 859, 863),
        row_follows(863, 877, 881, 883, 887, 907, 911, 919, 929, 937, 941),
        row_follows(941, 947, 953, 967, 971, 977, 983, 991, 997, 1009, 1013),
        row_follows(1013, 1019, 1021, 1031, 1033, 1039, 1049, 1051, 1061, 1063, 1069),
        row_follows(1069, 1087, 1091, 1093, 1097, 1103, 1109, 1117, 1123, 1129, 1151),
        row_follows(1151, 1153, 1163, 1171, 1181, 1187, 1193, 1201, 1213, 1217, 1223),
{
    reveal(passes_sieve);
    reveal(row_follows);
    reveal_with_fuel(gap_is_clear, 20);
}

/// The primes from 1223 to 1987: each number follows the one before.
pub proof fn lemma_rows_from_20()
    ensures
        row_follows(1223, 1229, 1231, 1237, 1249, 1259, 1277, 1279, 1283, 1289, 1291),
        row_follows(1291, 1297, 1301, 1303, 1307, 1319, 1321, 1327, 1361, 1367, 1373),
        row_follows(1373, 1381, 1399, 1409, 1423, 1427, 1429, 1433, 1439, 1447, 1451),
        row_follows(1451, 1453, 1459, 1471, 1481, 1483, 1487, 1489, 1493, 1499, 1511),
        row_follows(1511, 1523, 1531, 1543, 1549, 1553, 1559, 1567, 1571, 1579, 1583),
        row_follows(1583, 1597, 1601, 1607, 1609, 1613, 1619, 1621, 1627, 1637, 1657),
        row_follows(1657, 1663, 1667, 1669, 1693, 1697, 1699, 1709, 1721, 1723, 1733),
        row_follows(1733, 1741, 1747, 1753, 1759, 1777, 1783, 1787, 1789, 1801, 1811),
        row_follows(1811, 1823, 1831, 1847, 1861, 1867, 1871, 1873, 1877, 1879, 1889),
        row_follows(1889, 1901, 1907, 1913, 1931, 1933, 1949, 1951, 1973, 1979, 1987),
{
    reveal(passes_sieve);
    reveal(row_follows);
    reveal_with_fuel(gap_is_clear, 20);
}

/// The primes from 1987 to 2741: each number follows the one before.
pub proof fn lemma_rows_from_30()
    ensures
        row_follows(1987, 1993, 1997, 1999, 2003, 2011, 2017, 2027, 2029, 2039, 2053),
        row_follows(2053, 2063, 2069, 2081, 2083, 2087, 2089, 2099, 2111, 2113, 2129),
        row_follows(2129, 2131, 2137, 2141, 2143, 2153, 2161, 2179, 2203, 2207, 2213),
        row_follows(2213, 2221, 2237, 2239, 2243, 2251, 2267, 2269, 2273, 2281, 2287),
        row_follows(2287, 2293, 2297, 2309, 2311, 2333, 2339, 2341, 2347, 2351, 2357),
        row_follows(2357, 2371, 2377, 2381, 2383, 2389, 2393, 2399, 2411, 2417, 2423),
        row_follows(2423, 2437, 2441, 2447, 2459, 2467, 2473, 2477, 2503, 2521, 2531),
        row_follows(2531, 2539, 2543, 2549, 2551, 2557, 2579, 2591, 2593, 2609, 2617),
        row_follows(2617, 2621, 2633, 2647, 2657, 2659, 2663, 2671, 2677, 2683, 2687),
        row_follows(2687, 2689, 2693, 2699, 2707, 2711, 2713, 2719, 2729, 2731, 2741),
{
    reveal(passes_sieve);
    reveal(row_follows);
    reveal_with_fuel(gap_is_clear, 20);
}

/// The primes from 2741 to 3571: each number follows the one before.
pub proof fn lemma_rows_from_40()
    ensures
        row_follows(2741, 2749, 2753, 2767, 2777, 2789, 2791, 2797, 2801, 2803, 2819),
        row_follows(2819, 2833, 2837, 2843, 2851, 2857, 2861, 2879, 2887, 2897, 2903),
        row_follows(2903, 2909, 2917, 2927, 2939, 2953, 2957, 2963, 2969, 2971, 2999),
        row_follows(2999, 3001, 3011, 3019, 3023, 3037, 3041, 3049, 3061, 3067, 3079),
        row_follows(3079, 3083, 3089, 3109, 3119, 3121, 3137, 3163, 3167, 3169, 3181),
        row_follows(3181, 3187, 3191, 3203, 3209, 3217, 3221, 3229, 3251, 3253, 3257),
        row_follows(3257, 3259, 3271, 3299, 3301, 3307, 3313, 3319, 3323, 3329, 3331),
        row_follows(3331, 3343, 3347, 3359, 3361, 3371, 3373, 3389, 3391, 3407, 3413),
        row_follows(3413, 3433, 3449, 3457, 3461, 3463, 3467, 3469, 3491, 3499, 3511),
        row_follows(3511, 3517, 3527, 3529, 3533, 3539, 3541, 3547, 3557, 3559, 3571),
{
    reveal(passes_sieve);
    reveal(row_follows);
    reveal_with_fuel(gap_is_clear, 20);
}

/// The primes from 3571 to 4409: each number follows the one before.
pub proof fn lemma_rows_from_50()
    ensures
        row_follows(3571, 3581, 3583, 3593, 3607, 3613, 3617, 3623, 3631, 3637, 3643),
        row_follows(3643, 3659, 3671, 3673, 3677, 3691, 3697, 3701, 3709, 3719, 3727),
        row_follows(3727, 3733, 3739, 3761, 3767, 3769, 3779, 3793, 3797, 3803, 3821),
        row_follows(3821, 3823, 3833, 3847, 3851, 3853, 3863, 3877, 3881, 3889, 3907),
        row_follows(3907, 3911, 3917, 3919, 3923, 3929, 3931, 3943, 3947, 3967, 3989),
        row_follows(3989, 4001, 4003, 4007, 4013, 4019, 4021, 4027, 4049, 4051, 4057),
        row_follows(4057, 4073, 4079, 4091, 4093, 4099, 4111, 4127, 4129, 4133, 4139),
        row_follows(4139, 4153, 4157, 4159, 4177, 4201, 4211, 4217, 4219, 4229, 4231),
        row_follows(4231, 4241, 4243, 4253, 4259, 4261, 4271, 4273, 4283, 4289, 4297),
        row_follows(4297, 4327, 4337, 4339, 4349, 4357, 4363, 4373, 4391, 4397, 4409),
{
    reveal(passes_sieve);
    reveal(row_follows);
    reveal_with_fuel(gap_is_clear, 20);
}

/// The primes from 4409 to 5279: each number follows the one before.
pub proof fn lemma_rows_from_60()
    ensures
        row_follows(4409, 4421, 4423, 4441, 4447, 4451, 4457, 4463, 4481, 4483, 4493),
        row_follows(4493, 4507, 4513, 4517, 4519, 4523, 4547, 4549, 4561, 4567, 4583),
        row_follows(4583, 4591, 4597, 4603, 4621, 4637, 4639, 4643, 4649, 4651, 4657),
        row_follows(4657, 4663, 4673, 4679, 4691, 4703, 4721, 4723, 4729, 4733, 4751),
        row_follows(4751, 4759, 4783, 4787, 4789, 4793, 4799, 4801, 4813, 4817, 4831),
        row_follows(4831, 4861, 4871, 4877, 4889, 4903, 4909, 4919, 4931, 4933, 4937),
        row_follows(4937, 4943, 4951, 4957, 4967, 4969, 4973, 4987, 4993, 4999, 5003),
        row_follows(5003, 5009, 5011, 5021, 5023, 5039, 5051, 5059, 5077, 5081, 5087),
        row_follows(5087, 5099, 5101, 5107, 5113, 5119, 5147, 5153, 5167, 5171, 5179),
        row_follows(5179, 5189, 5197, 5209, 5227, 5231, 5233, 5237, 5261, 5273, 5279),
{
    reveal(passes_sieve);
    reveal(row_follows);
    reveal_with_fuel(gap_is_clear, 20);
}

/// The primes from 5279 to 6133: each number follows the one before.
pub proof fn lemma_rows_from_70()
    ensures
        row_follows(5279, 5281, 5297, 5303, 5309, 5323, 5333, 5347, 5351, 5381, 5387),
        row_follows(5387, 5393, 5399, 5407, 5413, 5417, 5419, 5431, 5437, 5441, 5443),
        row_follows(5443, 5449, 5471, 5477, 5479, 5483, 5501, 5503, 5507, 5519, 5521),
        row_follows(5521, 5527, 5531, 5557, 5563, 5569, 5573, 5581, 5591, 5623, 5639),
        row_follows(5639, 5641, 5647, 5651, 5653, 5657, 5659, 5669, 5683, 5689, 5693),
        row_follows(5693, 5701, 5711, 5717, 5737, 5741, 5743, 5749, 5779, 5783, 5791),
        row_follows(5791, 5801, 5807, 5813, 5821, 5827, 5839, 5843, 5849, 5851, 5857),
        row_follows(5857, 5861, 5867, 5869, 5879, 5881, 5897, 5903, 5923, 5927, 5939),
        row_follows(5939, 5953, 5981, 5987, 6007, 6011, 6029, 6037, 6043, 6047, 6053),
        row_follows(6053, 6067, 6073, 6079, 6089, 6091, 6101, 6113, 6121, 6131, 6133),
{
    reveal(passes_sieve);
    reveal(row_follows);
    reveal_with_fuel(gap_is_clear, 20);
}

/// The primes from 6133 to 6997: each number follows the one before.
pub proof fn lemma_rows_from_80()
    ensures
        row_follows(6133, 6143, 6151, 6163, 6173, 6197, 6199, 6203, 6211, 6217, 6221),
        row_follows(6221, 6229, 6247, 6257, 6263, 6269, 6271, 6277, 6287, 6299, 6301),
        row_follows(6301, 6311, 6317, 6323, 6329, 6337, 6343, 6353, 6359, 6361, 6367),
        row_follows(6367, 6373, 6379, 6389, 6397, 6421, 6427, 6449, 6451, 6469, 6473),
        row_follows(6473, 6481, 6491, 6521, 6529, 6547, 6551, 6553, 6563, 6569, 6571),
        row_follows(6571, 6577, 6581, 6599, 6607, 6619, 6637, 6653, 6659, 6661, 6673),
        row_follows(6673, 6679, 6689, 6691, 6701, 6703, 6709, 6719, 6733, 6737, 6761),
        row_follows(6761, 6763, 6779, 6781, 6791, 6793, 6803, 6823, 6827, 6829, 6833),
        row_follows(6833, 6841, 6857, 6863, 6869, 6871, 6883, 6899, 6907, 6911, 6917),
        row_follows(6917, 6947, 6949, 6959, 6961, 6967, 6971, 6977, 6983, 6991, 6997),
{
    reveal(passes_sieve);
    reveal(row_follows);
    reveal_with_fuel(gap_is_clear, 20);
}

/// The primes from 6997 to 7919: each number follows the one before.
pub proof fn lemma_rows_from_90()
    ensures
        row_follows(6997, 7001, 7013, 7019, 7027, 7039, 7043, 7057, 7069, 7079, 7103),
        row_follows(7103, 7109, 7121, 7127, 7129, 7151, 7159, 7177, 7187, 7193, 7207),
        row_follows(7207, 7211, 7213, 7219, 7229, 7237, 7243, 7247, 7253, 7283, 7297),
        row_follows(7297, 7307, 7309, 7321, 7331, 7333, 7349, 7351, 7369, 7393, 7411),
        row_follows(7411, 7417, 7433, 7451, 7457, 7459, 7477, 7481, 7487, 7489, 7499),
        row_follows(7499, 7507, 7517, 7523, 7529, 7537, 7541, 7547, 7549, 7559, 7561),
        row_follows(7561, 7573, 7577, 7583, 7589, 7591, 7603, 7607, 7621, 7639, 7643),
        row_follows(7643, 7649, 7669, 7673, 7681, 7687, 7691, 7699, 7703, 7717, 7723),
        row_follows(7723, 7727, 7741, 7753, 7757, 7759, 7789, 7793, 7817, 7823, 7829),
        row_follows(7829, 7841, 7853, 7867, 7873, 7877, 7879, 7883, 7901, 7907, 7919),
{
    reveal(passes_sieve);
    reveal(row_follows);
    reveal_with_fuel(gap_is_clear, 20);
}

} // verus!
