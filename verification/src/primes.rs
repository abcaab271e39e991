//! The source of primes: the table of the first thousand, and a list of the
//! following ones that grows on demand.
use crate::primality::{
    is_next_prime, is_prime, lemma_divides_transitive, lemma_next_prime_is_nth,
    lemma_nth_prime_exists, lemma_nth_prime_increasing, lemma_nth_prime_lower_bound,
    lemma_nth_prime_successor, lemma_prime_count_monotonic, lemma_prime_divisor, lemma_prime_is_nth,
    nth_prime, prime_count,
};
use crate::prime_table::{lemma_first_primes, lemma_prime_after_table, FIRST_PRIMES};
use vstd::prelude::*;

verus! {

/// How many primes the table holds.
pub const TABLE_SIZE: usize = 1000;

/// A container for prime numbers. The first thousand come from a table, the
/// following ones are computed when first asked for and kept.
pub struct Primes {
    extra_primes: Vec<u32>,
}

/// A position in the sequence of all primes.
pub struct PrimeIter {
    next: usize,
}

/// Starts at the first prime.
pub fn primes() -> (iter: PrimeIter)
    ensures
        iter.position() == 0,
{
    PrimeIter { next: 0 }
}

impl PrimeIter {
    /// The index of the prime that `next` gives.
    pub closed spec fn position(&self) -> nat {
        self.next as nat
    }

    /// Gives the prime at the position and moves on by one. Gives `None`, and
    /// stays, where that prime does not fit in 32 bits.
    pub fn next(&mut self, primes: &mut Primes) -> (prime: Option<u32>)
        requires
            old(primes).wf(),
        ensures
            final(primes).wf(),
            final(primes).known() >= old(primes).known(),
            match prime {
                Some(p) => p == nth_prime(old(self).position()) && final(self).position() == old(
                    self,
                ).position() + 1,
                None => nth_prime(old(self).position()) > u32::MAX && final(self).position()
                    == old(self).position(),
            },
    {
        let prime = primes.checked_get(self.next);
        if prime.is_some() {
            proof {
                lemma_nth_prime_lower_bound(self.next as nat);
            }
            self.next += 1;
        }
        prime
    }
}

impl Primes {
    /// The list holds, in order and without a gap, the primes that follow the table's.
    pub closed spec fn wf(&self) -> bool {
        &&& self.extra_primes@.len() >= 1
        &&& forall|i: int|
            0 <= i < self.extra_primes@.len() ==> #[trigger] self.extra_primes@[i] == nth_prime(
                (TABLE_SIZE + i) as nat,
            )
    }

    /// How many primes, counted from the first, are at hand without computing.
    pub closed spec fn known(&self) -> nat {
        (TABLE_SIZE + self.extra_primes@.len()) as nat
    }

    /// A new `Primes`: the table's thousand primes and the one after them.
    pub fn new() -> (primes: Primes)
        ensures
            primes.wf(),
            primes.known() == TABLE_SIZE + 1,
    {
        let mut extra_primes: Vec<u32> = Vec::new();
        extra_primes.push(7927);
        proof {
            lemma_prime_after_table();
        }
        Primes { extra_primes }
    }

    /// How many primes beyond the table have been computed.
    pub fn extra_len(&self) -> (len: usize)
        ensures
            len + TABLE_SIZE == self.known(),
    {
        self.extra_primes.len()
    }

    /// The `nth` prime if it is at hand, without computing.
    pub fn lookup(&self, nth: usize) -> (prime: Option<u32>)
        requires
            self.wf(),
        ensures
            match prime {
                Some(p) => nth < self.known() && p == nth_prime(nth as nat),
                None => nth >= self.known(),
            },
    {
        if nth < TABLE_SIZE {
            proof {
                lemma_first_primes(nth as int);
            }
            Some(FIRST_PRIMES[nth])
        } else if nth - TABLE_SIZE < self.extra_primes.len() {
            Some(self.extra_primes[nth - TABLE_SIZE])
        } else {
            None
        }
    }

    /// Whether one of the primes at hand divides `value`.
    fn has_known_divisor(&self, value: u32) -> (found: bool)
        requires
            self.wf(),
        ensures
            found == exists|i: int| 0 <= i < self.known() && #[trigger] (value as int % nth_prime(
                i as nat,
            )) == 0,
    {
        let mut i: usize = 0;
        while i < TABLE_SIZE
            invariant
                self.wf(),
                i <= TABLE_SIZE,
                forall|j: int| 0 <= j < i ==> #[trigger] (value as int % nth_prime(j as nat)) != 0,
            decreases TABLE_SIZE - i,
        {
            proof {
                lemma_first_primes(i as int);
            }
            if value % FIRST_PRIMES[i] == 0 {
                return true;
            }
            i += 1;
        }
        let mut k: usize = 0;
        while k < self.extra_primes.len()
            invariant
                self.wf(),
                k <= self.extra_primes@.len(),
                forall|j: int|
                    0 <= j < TABLE_SIZE + k ==> #[trigger] (value as int % nth_prime(j as nat))
                        != 0,
            decreases self.extra_primes@.len() - k,
        {
            proof {
                lemma_nth_prime_lower_bound((TABLE_SIZE + k) as nat);
            }
            if value % self.extra_primes[k] == 0 {
                return true;
            }
            k += 1;
        }
        false
    }

    /// The prime that follows the last of the list, where it fits in 32 bits.
    fn next_prime(&self) -> (prime: Option<u32>)
        requires
            self.wf(),
        ensures
            match prime {
                Some(p) => p == nth_prime(self.known()),
                None => nth_prime(self.known()) > u32::MAX,
            },
    {
        let last = self.extra_primes[self.extra_primes.len() - 1];
        let ghost last_index = (self.known() - 1) as nat;
        proof {
            lemma_nth_prime_exists(last_index);
            lemma_nth_prime_increasing(0, last_index);
            lemma_first_primes(0);
            assert(last % 2 != 0);
        }
        let mut candidate = last;
        loop
            invariant
                self.wf(),
                last == nth_prime(last_index),
                last_index + 1 == self.known(),
                3 <= last <= candidate,
                candidate % 2 == 1,
                forall|r: int| last < r <= candidate ==> !is_prime(r),
            decreases u32::MAX - candidate,
        {
            if candidate > u32::MAX - 2 {
                proof {
                    lemma_nth_prime_successor(last_index);
                }
                return None;
            }
            candidate += 2;
            proof {
                assert(!is_prime(candidate - 1)) by {
                    if is_prime(candidate - 1) {
                        assert((candidate - 1) % 2 != 0);
                    }
                }
            }
            if !self.has_known_divisor(candidate) {
                proof {
                    assert(is_prime(candidate as int)) by {
                        if !is_prime(candidate as int) {
                            let d = choose|d: int|
                                2 <= d < candidate && #[trigger] (candidate as int % d) == 0;
                            let q = lemma_prime_divisor(d);
                            lemma_divides_transitive(q, d, candidate as int);
                            self.lemma_known(q);
                            let i = prime_count(q) as int;
                            assert(candidate as int % nth_prime(i as nat) == 0);
                        }
                    }
                    assert(is_next_prime(last as int, candidate as int));
                    lemma_next_prime_is_nth(last_index, candidate as int);
                }
                return Some(candidate);
            }
            proof {
                let i = choose|i: int|
                    0 <= i < self.known() && #[trigger] (candidate as int % nth_prime(i as nat))
                        == 0;
                lemma_nth_prime_exists(i as nat);
                if i < last_index {
                    lemma_nth_prime_increasing(i as nat, last_index);
                }
                assert(!is_prime(candidate as int));
            }
        }
    }

    /// A prime that is no greater than the last of the list is at hand.
    proof fn lemma_known(&self, q: int)
        requires
            self.wf(),
            is_prime(q),
            q <= nth_prime((self.known() - 1) as nat),
        ensures
            prime_count(q) < self.known(),
            q == nth_prime(prime_count(q)),
    {
        let last_index = (self.known() - 1) as nat;
        lemma_prime_is_nth(q);
        lemma_nth_prime_exists(last_index);
        lemma_prime_count_monotonic(q, nth_prime(last_index));
    }

    /// The `nth` prime, computed and kept if it was not at hand. Gives `None`
    /// where it does not fit in 32 bits.
    pub fn checked_get(&mut self, nth: usize) -> (prime: Option<u32>)
        requires
            old(self).wf(),
        ensures
            final(self).wf(),
            match prime {
                Some(p) => {
                    &&& p == nth_prime(nth as nat)
                    &&& final(self).known() == if nth < old(self).known() {
                        old(self).known()
                    } else {
                        (nth + 1) as nat
                    }
                },
                None => {
                    &&& nth_prime(nth as nat) > u32::MAX
                    &&& final(self).known() >= old(self).known()
                    &&& nth_prime(final(self).known()) > u32::MAX
                },
            },
    {
        if nth < TABLE_SIZE {
            proof {
                lemma_first_primes(nth as int);
            }
            return Some(FIRST_PRIMES[nth]);
        }
        let index = nth - TABLE_SIZE;
        while self.extra_primes.len() <= index
            invariant
                self.wf(),
                index == nth - TABLE_SIZE,
                old(self).known() <= self.known(),
                self.known() <= nth + 1 || self.known() == old(self).known(),
            decreases nth + 1 - self.extra_primes@.len(),
        {
            match self.next_prime() {
                Some(prime) => {
                    self.extra_primes.push(prime);
                },
                None => {
                    proof {
                        if self.known() < nth {
                            lemma_nth_prime_increasing(self.known(), nth as nat);
                        }
                    }
                    return None;
                },
            }
        }
        Some(self.extra_primes[index])
    }

    /// The `nth` prime, computed and kept if it was not at hand.
    pub fn get(&mut self, nth: usize) -> (prime: u32)
        requires
            old(self).wf(),
            nth_prime(nth as nat) <= u32::MAX,
        ensures
            final(self).wf(),
            prime == nth_prime(nth as nat),
            final(self).known() == if nth < old(self).known() {
                old(self).known()
            } else {
                (nth + 1) as nat
            },
    {
        match self.checked_get(nth) {
            Some(prime) => prime,
            None => 0,
        }
    }
}

} // verus!
