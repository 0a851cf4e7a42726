//! A bounded stream of uniformly random big integers, with an optional
//! caller-chosen value substituted for the final draw.
//!
//! Miller-Rabin consumes witnesses from such a stream; substituting the
//! value 2 for the last slot is how a base-2 round is forced without
//! changing the number of witnesses tested.

use vstd::prelude::*;

use num_bigint::BigUint;

use crate::bigint::{big_nat, rand_biguint_range};

verus! {

/// Yields `amount` random values in `[lower_limit, upper_limit)`; if a value
/// was appended, it is yielded in place of the final draw, so the stream's
/// length is unchanged.
pub struct Randoms {
    appended: Option<BigUint>,
    lower_limit: BigUint,
    upper_limit: BigUint,
    amount: usize,
}

impl Randoms {
    /// The inclusive lower bound on the random draws.
    pub closed spec fn lower(self) -> nat {
        big_nat(self.lower_limit)
    }

    /// The exclusive upper bound on the random draws.
    pub closed spec fn upper(self) -> nat {
        big_nat(self.upper_limit)
    }

    /// How many values the stream will still yield.
    pub closed spec fn remaining(self) -> nat {
        self.amount as nat
    }

    /// The value pinned to the final slot, if any.
    pub closed spec fn pinned(self) -> Option<nat> {
        match self.appended {
            Some(b) => Some(big_nat(b)),
            None => None,
        }
    }

    /// A fresh stream of `amount` draws from `[lower_limit, upper_limit)`.
    pub fn new(lower_limit: BigUint, upper_limit: BigUint, amount: usize) -> (r: Randoms)
        ensures
            r.lower() == big_nat(lower_limit),
            r.upper() == big_nat(upper_limit),
            r.remaining() == amount as nat,
            r.pinned() is None,
    {
        Randoms { appended: None, lower_limit, upper_limit, amount }
    }

    /// Pins `x` to the final slot, so it appears as if it had been drawn.
    /// The stream's length is unchanged; a previously pinned value is
    /// replaced.
    pub fn with_appended(self, x: BigUint) -> (r: Randoms)
        ensures
            r.lower() == self.lower(),
            r.upper() == self.upper(),
            r.remaining() == self.remaining(),
            r.pinned() == Some(big_nat(x)),
    {
        Randoms { appended: Some(x), ..self }
    }

    /// The next value of the stream: a uniform draw from
    /// `[lower_limit, upper_limit)`, except that the final slot yields the
    /// pinned value if one is set. After `remaining()` values the stream is
    /// exhausted and yields nothing.
    pub fn next(&mut self) -> (r: Option<BigUint>)
        requires
            old(self).lower() < old(self).upper(),
        ensures
            final(self).lower() == old(self).lower(),
            final(self).upper() == old(self).upper(),
            old(self).remaining() == 0 ==> r is None && final(self).remaining() == 0
                && final(self).pinned() == old(self).pinned(),
            old(self).remaining() > 0 ==> final(self).remaining() == old(self).remaining() - 1,
            old(self).remaining() > 1 ==> (r matches Some(b) && old(self).lower() <= big_nat(b)
                < old(self).upper()) && final(self).pinned() == old(self).pinned(),
            old(self).remaining() == 1 && old(self).pinned() is None ==> (r matches Some(b)
                && old(self).lower() <= big_nat(b) < old(self).upper()),
            old(self).remaining() == 1 ==> (old(self).pinned() matches Some(x) ==> (
            r matches Some(b) && big_nat(b) == x)),
            old(self).remaining() == 1 ==> final(self).pinned() is None,
    {
        if self.amount == 0 {
            None
        } else if self.amount == 1 {
            self.amount = 0;
            match self.appended.take() {
                Some(x) => Some(x),
                None => Some(rand_biguint_range(&self.lower_limit, &self.upper_limit)),
            }
        } else {
            self.amount = self.amount - 1;
            Some(rand_biguint_range(&self.lower_limit, &self.upper_limit))
        }
    }
}

} // verus!
