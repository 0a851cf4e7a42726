//! The small-prime table: every odd prime up to 17863, used for trial
//! division before the expensive probabilistic tests. Together with 2,
//! which the tests handle by parity, these are the first 2048 primes.
//!
//! The table is rebuilt by a verified sieve on each top-level call rather
//! than held in a global, and carries its characterization as a
//! postcondition: it holds exactly the odd primes up to the limit, in
//! increasing order.

use vstd::arithmetic::div_mod::{
    lemma_div_is_ordered_by_denominator, lemma_fundamental_div_mod, lemma_mod_multiples_basic,
};
use vstd::arithmetic::mul::lemma_mul_inequality;
use vstd::prelude::*;

use crate::arith::is_prime_spec;

verus! {

/// The largest prime in the trial-division table, which holds the odd
/// primes 3, 5, 7, ... 17863.
pub const SMALL_PRIME_LIMIT: u64 = 17863;

/// `n` is an entry of the small-prime table: an odd prime up to the limit.
pub open spec fn in_small_table(n: nat) -> bool {
    is_prime_spec(n) && n % 2 == 1 && n <= SMALL_PRIME_LIMIT as nat
}

/// If no candidate divisor up to the square root divides `p`, then `p` is
/// prime: a proper factorization `p == e * f` has a factor at most
/// `sqrt(p)`.
proof fn lemma_trial_division_complete(p: nat, d: nat)
    requires
        p >= 2,
        d >= 2,
        p / d < d,
        forall|e: nat| 2 <= e < d ==> #[trigger] (p % e) != 0,
    ensures
        is_prime_spec(p),
{
    if !is_prime_spec(p) {
        let e = choose|e: nat| 2 <= e < p && #[trigger] (p % e) == 0;
        assert(2 <= e < p && p % e == 0);
        if e < d {
            assert(p % e != 0);
        } else {
            let f = p / e;
            lemma_fundamental_div_mod(p as int, e as int);
            assert(p == e * f);
            if f == 0 {
                assert(p == e * 0);
            }
            if f == 1 {
                assert(p == e * 1);
            }
            assert(f >= 2);
            lemma_div_is_ordered_by_denominator(p as int, d as int, e as int);
            assert(f <= p / d);
            assert(f < d);
            lemma_mod_multiples_basic(e as int, f as int);
            assert((e as int * f as int) % (f as int) == 0);
            assert(p % f == 0);
            assert(p % f != 0);
        }
    }
}

/// Decides primality of a machine-sized integer by trial division up to the
/// square root.
pub fn is_small_prime(p: u64) -> (r: bool)
    ensures
        r == is_prime_spec(p as nat),
{
    if p < 2 {
        return false;
    }
    let mut d: u64 = 2;
    while d <= p / d
        invariant
            2 <= d,
            p >= 2,
            d <= p,
            forall|e: nat| 2 <= e < d ==> #[trigger] ((p as nat) % e) != 0,
        decreases p - d,
    {
        proof {
            lemma_div_is_ordered_by_denominator(p as int, 2, d as int);
            assert(d <= p / 2);
        }
        if p % d == 0 {
            proof {
                lemma_fundamental_div_mod(p as int, d as int);
                lemma_mul_inequality(d as int, p as int / d as int, d as int);
                assert(d * (p as int / d as int) <= p as int) by {
                    vstd::arithmetic::div_mod::lemma_remainder_lower(p as int, d as int);
                };
                lemma_mul_inequality(2, d as int, d as int);
                assert(2 * d <= d * d);
                assert((p as nat) % (d as nat) == 0);
            }
            return false;
        }
        d = d + 1;
    }
    proof {
        lemma_trial_division_complete(p as nat, d as nat);
    }
    true
}

/// Builds the small-prime table: exactly the odd primes up to
/// `SMALL_PRIME_LIMIT`, in increasing order.
pub fn small_primes() -> (v: Vec<u64>)
    ensures
        forall|i: int| 0 <= i < v@.len() ==> in_small_table(v@[i] as nat),
        forall|q: nat| in_small_table(q) ==> v@.contains(q as u64),
        forall|i: int, j: int| 0 <= i < j < v@.len() ==> v@[i] < v@[j],
{
    let mut v: Vec<u64> = Vec::new();
    let mut n: u64 = 3;
    while n <= SMALL_PRIME_LIMIT
        invariant
            3 <= n,
            n % 2 == 1,
            n <= SMALL_PRIME_LIMIT + 2,
            forall|i: int| 0 <= i < v@.len() ==> in_small_table(v@[i] as nat),
            forall|i: int| 0 <= i < v@.len() ==> v@[i] < n,
            forall|q: nat| in_small_table(q) && q < n ==> v@.contains(q as u64),
            forall|i: int, j: int| 0 <= i < j < v@.len() ==> v@[i] < v@[j],
        decreases SMALL_PRIME_LIMIT + 2 - n,
    {
        let ghost old_v = v@;
        if is_small_prime(n) {
            v.push(n);
            assert(v@[v@.len() - 1] == n);
            assert(forall|q: u64| old_v.contains(q) ==> v@.contains(q)) by {
                assert(forall|i: int| 0 <= i < old_v.len() ==> v@[i] == old_v[i]);
            };
        }
        proof {
            assert forall|q: nat| in_small_table(q) && q < n + 2 implies v@.contains(q as u64) by {
                if q == n as nat {
                    assert(v@[v@.len() - 1] == n);
                } else if q == (n + 1) as nat {
                    // even, so not in the table
                    assert(q % 2 == 0);
                } else if q < n as nat {
                    assert(old_v.contains(q as u64) || v@.contains(q as u64));
                    if old_v.contains(q as u64) {
                        let i = choose|i: int| 0 <= i < old_v.len() && old_v[i] == q as u64;
                        assert(v@[i] == q as u64);
                    }
                }
            };
        }
        n = n + 2;
    }
    v
}

} // verus!
