//! The list of exponents of a factorization, kept in a `SmallVec`: up to
//! sixteen exponents are held without an allocation.
use smallvec::SmallVec;
use vstd::prelude::*;

verus! {

/// A growable list of exponents. What it holds is `exponent_list`.
#[verifier::external_body]
#[derive(Debug, PartialEq)]
pub struct Factors {
    inner: SmallVec<[u16; 16]>,
}

/// The exponents that a list holds, first to last.
pub uninterp spec fn exponent_list(factors: Factors) -> Seq<u16>;

impl Factors {
    /// `SmallVec::new`: the empty list.
    #[verifier::external_body]
    pub(crate) fn new() -> (factors: Factors)
        ensures
            exponent_list(factors) == Seq::<u16>::empty(),
    {
        Factors { inner: SmallVec::new() }
    }

    /// `SmallVec::len`: the number of exponents held.
    #[verifier::external_body]
    pub(crate) fn len(&self) -> (len: usize)
        ensures
            len == exponent_list(*self).len(),
    {
        self.inner.len()
    }

    /// Indexing a `SmallVec`, which gives the exponent at `index`; it panics
    /// from the length on.
    #[verifier::external_body]
    pub(crate) fn get(&self, index: usize) -> (exponent: u16)
        requires
            index < exponent_list(*self).len(),
        ensures
            exponent == exponent_list(*self)[index as int],
    {
        self.inner[index]
    }

    /// Assigning through the index of a `SmallVec`, which replaces the
    /// exponent at `index` and leaves the others; it panics from the length on.
    #[verifier::external_body]
    pub(crate) fn set(&mut self, index: usize, exponent: u16)
        requires
            index < exponent_list(*old(self)).len(),
        ensures
            exponent_list(*final(self)) == exponent_list(*old(self)).update(index as int, exponent),
    {
        self.inner[index] = exponent;
    }

    /// `SmallVec::push`: appends one exponent.
    #[verifier::external_body]
    pub(crate) fn push(&mut self, exponent: u16)
        ensures
            exponent_list(*final(self)) == exponent_list(*old(self)).push(exponent),
    {
        self.inner.push(exponent)
    }

    /// `SmallVec::pop`: takes the last exponent off and gives it, or gives
    /// `None` and changes nothing where the list is empty.
    #[verifier::external_body]
    pub(crate) fn pop(&mut self) -> (last: Option<u16>)
        ensures
            exponent_list(*old(self)).len() == 0 ==> last.is_none() && exponent_list(*final(self))
                == exponent_list(*old(self)),
            exponent_list(*old(self)).len() > 0 ==> last == Some(exponent_list(*old(self)).last())
                && exponent_list(*final(self)) == exponent_list(*old(self)).drop_last(),
    {
        self.inner.pop()
    }

    /// `SmallVec::resize`: cuts the list down to `len` exponents, or fills it
    /// up to `len` with copies of `exponent`.
    #[verifier::external_body]
    pub(crate) fn resize(&mut self, len: usize, exponent: u16)
        ensures
            exponent_list(*final(self)).len() == len,
            forall|i: int|
                0 <= i < len ==> #[trigger] exponent_list(*final(self))[i] == if i
                    < exponent_list(*old(self)).len() {
                    exponent_list(*old(self))[i]
                } else {
                    exponent
                },
    {
        self.inner.resize(len, exponent)
    }

    /// `SmallVec::clear`: removes every exponent.
    #[verifier::external_body]
    pub(crate) fn clear(&mut self)
        ensures
            exponent_list(*final(self)) == Seq::<u16>::empty(),
    {
        self.inner.clear()
    }

    /// `SmallVec::clone`: a list that holds the same exponents.
    #[verifier::external_body]
    pub(crate) fn duplicate(&self) -> (copy: Factors)
        ensures
            exponent_list(copy) == exponent_list(*self),
    {
        Factors { inner: self.inner.clone() }
    }
}

impl Factors {
    /// The exponents as a vector.
    pub fn to_vec(&self) -> (exponents: Vec<u16>)
        ensures
            exponents@ == exponent_list(*self),
    {
        let mut exponents: Vec<u16> = Vec::new();
        let mut i: usize = 0;
        while i < self.len()
            invariant
                i <= exponent_list(*self).len(),
                exponents@ == exponent_list(*self).subrange(0, i as int),
            decreases exponent_list(*self).len() - i,
        {
            exponents.push(self.get(i));
            i += 1;
            assert(exponents@ =~= exponent_list(*self).subrange(0, i as int));
        }
        assert(exponents@ =~= exponent_list(*self));
        exponents
    }
}

} // verus!
