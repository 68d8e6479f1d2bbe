//! Positive machine integers.

use vstd::prelude::*;

verus! {

/// A `usize` that is never zero.
#[derive(Clone, Copy, Debug, PartialEq, Eq)]
pub struct NonZeroUsize {
    value: usize,
}

impl NonZeroUsize {
    #[verifier::type_invariant]
    spec fn positive(self) -> bool {
        self.value > 0
    }

    /// The number that is held.
    pub closed spec fn view(&self) -> usize {
        self.value
    }

    /// Wraps `n`, or returns `None` if it is zero.
    pub fn new(n: usize) -> (r: Option<Self>)
        ensures
            r is None <==> n == 0,
            r matches Some(v) ==> v@ == n,
    {
        if n == 0 {
            None
        } else {
            Some(NonZeroUsize { value: n })
        }
    }

    /// The number that is held.
    pub fn get(&self) -> (r: usize)
        ensures
            r == self@,
            r > 0,
    {
        proof {
            use_type_invariant(self);
        }
        self.value
    }

    /// The number one.
    pub fn one() -> (r: Self)
        ensures
            r@ == 1,
    {
        NonZeroUsize { value: 1 }
    }

    /// The smaller of two numbers.
    pub fn min(self, other: Self) -> (r: Self)
        ensures
            r == (if self@ <= other@ {
                self
            } else {
                other
            }),
    {
        if self.value <= other.value {
            self
        } else {
            other
        }
    }
}

} // verus!
