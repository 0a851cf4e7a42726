//! The primality-testing kernel and the candidate generators.
//!
//! A candidate runs through trial division by the small-prime table, one
//! Fermat test with a random base, and `log2(bits) + 5` Miller-Rabin
//! rounds; the strong (Baillie-PSW) variants force a base-2 Miller-Rabin
//! round and add the almost extra strong Lucas test.

use vstd::arithmetic::power::pow;
use vstd::arithmetic::power2::pow2;
use vstd::prelude::*;

use num_bigint::BigUint;

use crate::arith::{
    bit_len, factor2, lemma_bit_len_bounds, lemma_factor2_lt_bit_len, lemma_shift_out, log2_floor,
    odd_part,
};
use crate::bigint::{
    big_bits, big_clone, big_eq, big_from_u64, big_is_even, big_mod, big_mod_u64, big_modpow,
    big_set_low_bit, big_shl, big_shr, big_sub, big_nat, os_gen_biguint, rand_biguint_range,
};
use crate::error::Error;
use crate::table::{in_small_table, small_primes};

verus! {

/// The least bit length the generators accept.
pub const MIN_BIT_LENGTH: usize = 128;

/// How many Miller-Rabin rounds a candidate of `bits` bits must pass:
/// `floor(log2(bits)) + 5`.
pub fn required_checks(bits: usize) -> (k: usize)
    ensures
        k as nat == log2_floor(bits as nat) + 5,
{
    proof {
        vstd::arithmetic::power2::lemma2_to64();
        crate::arith::lemma_bit_len_le(bits as nat, 64);
        if bits >= 1 {
            crate::arith::lemma_bit_len_log2(bits as nat);
        }
    }
    let mut v: usize = bits;
    let mut r: usize = 0;
    while v >= 2
        invariant
            log2_floor(bits as nat) == r as nat + log2_floor(v as nat),
            log2_floor(bits as nat) <= 63,
        decreases v,
    {
        v = v / 2;
        r = r + 1;
    }
    r + 5
}

/// A base `a` passes the Fermat test for `n`: `a^(n-1) = 1 (mod n)`.
pub open spec fn fermat_witness(n: nat, a: nat) -> bool {
    pow(a as int, (n - 1) as nat) % (n as int) == 1
}

/// One Fermat test with a uniformly random base in `[1, n)`. The base is
/// random, so all that holds of the answer is that some base in the range
/// decided it.
fn fermat(candidate: &BigUint) -> (r: bool)
    requires
        big_nat(*candidate) >= 2,
    ensures
        r ==> exists|a: nat| 1 <= a < big_nat(*candidate) && #[trigger] fermat_witness(
            big_nat(*candidate),
            a,
        ),
        !r ==> exists|a: nat|
            1 <= a < big_nat(*candidate) && !(#[trigger] fermat_witness(big_nat(*candidate), a)),
{
    let one = big_from_u64(1);
    let random = rand_biguint_range(&one, candidate);
    let exponent = big_sub(candidate, &one);
    let result = big_modpow(&random, &exponent, candidate);
    let r = big_eq(&result, &one);
    proof {
        let n = big_nat(*candidate);
        let a = big_nat(random);
        assert(r == fermat_witness(n, a));
    }
    r
}

/// Counts the factors of two of a positive value.
pub(crate) fn trailing_zeros(n: &BigUint) -> (r: u64)
    requires
        big_nat(*n) >= 1,
    ensures
        r as nat == factor2(big_nat(*n)),
{
    let ghost m0 = big_nat(*n);
    let bits = big_bits(n);
    proof {
        lemma_factor2_lt_bit_len(m0);
    }
    let mut t = big_clone(n);
    let mut i: u64 = 0;
    while big_is_even(&t)
        invariant
            big_nat(t) >= 1,
            factor2(m0) == i as nat + factor2(big_nat(t)),
            odd_part(m0) == odd_part(big_nat(t)),
            factor2(m0) < bit_len(m0),
            bit_len(m0) == bits as nat,
        decreases big_nat(t),
    {
        t = big_shr(&t, 1);
        proof {
            vstd::arithmetic::power2::lemma2_to64();
        }
        i = i + 1;
    }
    i
}

/// Splits `candidate - 1` as `2^trials * d` with `d` odd, returning
/// `(trials, d)`.
fn rewrite(candidate: &BigUint) -> (res: (u64, BigUint))
    requires
        big_nat(*candidate) >= 3,
        big_nat(*candidate) % 2 == 1,
    ensures
        res.0 as nat == factor2((big_nat(*candidate) - 1) as nat),
        big_nat(res.1) == odd_part((big_nat(*candidate) - 1) as nat),
        res.0 >= 1,
        big_nat(res.1) >= 1,
        big_nat(res.1) % 2 == 1,
{
    let one = big_from_u64(1);
    let d0 = big_sub(candidate, &one);
    let trials = trailing_zeros(&d0);
    let d = big_shr(&d0, trials);
    proof {
        let m = big_nat(d0);
        crate::arith::lemma_two_adic_decomposition(m);
        vstd::arithmetic::power2::lemma_pow2_pos(factor2(m));
        vstd::arithmetic::div_mod::lemma_div_multiples_vanish(
            odd_part(m) as int,
            pow2(factor2(m)) as int,
        );
        assert(big_nat(d) == odd_part(m));
    }
    (trials, d)
}

/// The rest of a Miller-Rabin round after the initial power: square up to
/// `k` more times, accepting the witness on reaching `n - 1` and rejecting
/// on reaching 1 or on running out of squarings.
pub open spec fn mr_chain_passes(n: nat, x: nat, k: nat) -> bool
    decreases k,
{
    if k == 0 {
        false
    } else {
        let x2 = (x * x) % n;
        if x2 == 1 {
            false
        } else if x2 == n - 1 {
            true
        } else {
            mr_chain_passes(n, x2, (k - 1) as nat)
        }
    }
}

/// The squaring bound of a Miller-Rabin round on `n`: the number of factors
/// of two in `n - 1`, raised to at least 5.
pub open spec fn mr_trials(n: nat) -> nat {
    if factor2((n - 1) as nat) < 5 {
        5
    } else {
        factor2((n - 1) as nat)
    }
}

/// Witness `a` fails to prove `n` composite: `a^d mod n` is 1 or `n - 1`
/// outright, with `d` the odd part of `n - 1`, or some of the following
/// `trials - 1` squarings reaches `n - 1` without passing through 1.
///
/// The budget of `trials - 1` squarings is deliberate: it is the full
/// strong-test budget. One squaring fewer would miss the `n - 1` that a
/// quadratic non-residue base shows only at the last possible position,
/// and so would wrongly reject every prime whose `n - 1` carries five or
/// more factors of two for about half of all bases.
pub open spec fn mr_witness_passes(n: nat, a: nat, trials: nat) -> bool {
    let x = (pow(a as int, odd_part((n - 1) as nat)) % (n as int)) as nat;
    x == 1 || x == n - 1 || mr_chain_passes(n, x, (trials - 1) as nat)
}

/// Miller-Rabin with `limit` random witnesses from `[2, n)`; `force2` pins
/// the witness 2 into the final slot. The random witnesses are not pinned
/// down, so a rejection promises only that some witness in range rejected;
/// an acceptance with `force2` promises that witness 2 passed.
fn miller_rabin(candidate: &BigUint, limit: usize, force2: bool) -> (r: bool)
    requires
        big_nat(*candidate) >= 3,
        big_nat(*candidate) % 2 == 1,
    ensures
        !r ==> exists|a: nat|
            2 <= a < big_nat(*candidate) && !(#[trigger] mr_witness_passes(
                big_nat(*candidate),
                a,
                mr_trials(big_nat(*candidate)),
            )),
        r && force2 && limit >= 1 ==> mr_witness_passes(
            big_nat(*candidate),
            2,
            mr_trials(big_nat(*candidate)),
        ),
{
    let ghost n = big_nat(*candidate);
    let (t0, d) = rewrite(candidate);
    let trials: u64 = if t0 < 5 {
        5
    } else {
        t0
    };
    let one = big_from_u64(1);
    let two = big_from_u64(2);
    let cand_minus_one = big_sub(candidate, &one);
    let mut bases = crate::rand::Randoms::new(big_from_u64(2), big_clone(candidate), limit);
    if force2 {
        bases = bases.with_appended(big_from_u64(2));
    }
    let mut result = true;
    let mut done = false;
    let ghost mut two_passed = false;
    while !done
        invariant
            bases.lower() == 2,
            bases.upper() == n,
            n == big_nat(*candidate),
            n >= 3,
            n % 2 == 1,
            big_nat(one) == 1,
            big_nat(two) == 2,
            big_nat(cand_minus_one) == n - 1,
            big_nat(d) == odd_part((n - 1) as nat),
            trials as nat == mr_trials(n),
            trials >= 5,
            !result ==> done,
            !result ==> exists|a: nat|
                2 <= a < n && !(#[trigger] mr_witness_passes(n, a, mr_trials(n))),
            (result && force2 && limit >= 1 && !done) ==> ((bases.remaining() >= 1
                && bases.pinned() == Some(2nat)) || two_passed),
            (result && force2 && limit >= 1 && done) ==> two_passed,
            two_passed ==> mr_witness_passes(n, 2, mr_trials(n)),
            bases.pinned() is None || bases.pinned() == Some(2nat),
        decreases bases.remaining() + (if done {
            0int
        } else {
            1int
        }),
    {
        let ghost old_bases = bases;
        let next = bases.next();
        match next {
            None => {
                done = true;
            },
            Some(basis) => {
                let ghost a = big_nat(basis);
                let ghost was_pinned_two = old_bases.remaining() == 1 && old_bases.pinned()
                    == Some(2nat);
                let mut x = big_modpow(&basis, &d, candidate);
                let ghost x0 = big_nat(x);
                let mut witness_passed = false;
                let mut witness_failed = false;
                if big_eq(&x, &one) || big_eq(&x, &cand_minus_one) {
                    witness_passed = true;
                } else {
                    let mut j: u64 = 1;
                    while j < trials && !witness_passed && !witness_failed
                        invariant
                            1 <= j <= trials,
                            trials >= 5,
                            n == big_nat(*candidate),
                            n >= 3,
                            big_nat(one) == 1,
                            big_nat(two) == 2,
                            big_nat(cand_minus_one) == n - 1,
                            x0 == (pow(a as int, odd_part((n - 1) as nat)) % (n as int)) as nat,
                            x0 != 1 && x0 != n - 1,
                            trials as nat == mr_trials(n),
                            (!witness_passed && !witness_failed) ==> mr_chain_passes(
                                n,
                                x0,
                                (trials - 1) as nat,
                            ) == mr_chain_passes(n, big_nat(x), (trials - j) as nat),
                            witness_passed ==> mr_witness_passes(n, a, mr_trials(n)),
                            witness_failed ==> !mr_witness_passes(n, a, mr_trials(n)),
                        decreases trials - j,
                    {
                        let x2 = big_modpow(&x, &two, candidate);
                        proof {
                            vstd::arithmetic::power::lemma_square_is_pow2(big_nat(x) as int);
                        }
                        if big_eq(&x2, &one) {
                            witness_failed = true;
                        } else if big_eq(&x2, &cand_minus_one) {
                            witness_passed = true;
                        } else {
                            x = x2;
                        }
                        j = j + 1;
                    }
                    if !witness_passed && !witness_failed {
                        // the squarings ran out without reaching n - 1
                        witness_failed = true;
                    }
                }
                if witness_failed {
                    result = false;
                    done = true;
                    proof {
                        assert(2 <= a < n);
                        assert(!mr_witness_passes(n, a, mr_trials(n)));
                    }
                } else {
                    proof {
                        if was_pinned_two {
                            two_passed = true;
                        }
                    }
                }
            },
        }
    }
    result
}

/// No entry of the small-prime table other than `n` itself divides `n`.
pub open spec fn passes_trial_division(n: nat) -> bool {
    forall|q: nat| in_small_table(q) && q != n ==> #[trigger] (n % q) != 0
}

/// What holds of every value the layered test accepts: 2, or an odd value
/// of at least 3 that trial division could not factor.
pub open spec fn probable_prime_facts(n: nat) -> bool {
    n == 2 || (n % 2 == 1 && n >= 3 && passes_trial_division(n))
}

/// What a strong (base-2-forced) acceptance adds: unless the value was
/// settled as 2 or by the table, witness 2 passed its Miller-Rabin round.
pub open spec fn strong_witness_facts(n: nat) -> bool {
    n == 2 || in_small_table(n) || mr_witness_passes(n, 2, mr_trials(n))
}

/// The layered test never rejects without exhibiting a reason: the value is
/// a unit, an even value other than 2, a proper multiple of a table prime,
/// or some base in range failed its Fermat or Miller-Rabin round. An
/// implementation that rejected large values out of hand could not meet a
/// rejection bound stated with this predicate.
pub open spec fn rejection_grounds(n: nat) -> bool {
    n <= 1 || (n % 2 == 0 && n != 2) || (exists|q: nat|
        in_small_table(q) && q != n && #[trigger] (n % q) == 0) || (exists|a: nat|
        1 <= a < n && !(#[trigger] fermat_witness(n, a))) || (exists|a: nat|
        2 <= a < n && !(#[trigger] mr_witness_passes(n, a, mr_trials(n))))
}

/// The table a caller hands to the layered test: every entry is an odd
/// prime up to the limit, and every such prime is an entry. `small_primes`
/// builds exactly such a vector.
pub open spec fn is_prime_table(primes: Seq<u64>) -> bool {
    (forall|i: int| 0 <= i < primes.len() ==> in_small_table(#[trigger] primes[i] as nat))
        && (forall|q: nat| in_small_table(q) ==> primes.contains(q as u64))
}

/// The layered primality test: 2 is prime; even or unit values are not;
/// a value divisible by a table entry is prime exactly when it is that
/// entry; what survives faces one Fermat test and `checks` Miller-Rabin
/// rounds, with witness 2 forced when `force2` is set. The table is built
/// once per top-level call and shared down the candidate loop.
fn _is_prime(primes: &Vec<u64>, candidate: &BigUint, checks: usize, force2: bool) -> (r: bool)
    requires
        is_prime_table(primes@),
    ensures
        big_nat(*candidate) == 2 ==> r,
        (big_nat(*candidate) != 2 && (big_nat(*candidate) % 2 == 0 || big_nat(*candidate) <= 1))
            ==> !r,
        in_small_table(big_nat(*candidate)) ==> r,
        (exists|q: nat|
            in_small_table(q) && q != big_nat(*candidate) && #[trigger] (big_nat(*candidate) % q)
                == 0) ==> !r,
        r ==> probable_prime_facts(big_nat(*candidate)),
        (r && force2 && checks >= 1) ==> strong_witness_facts(big_nat(*candidate)),
        !r ==> rejection_grounds(big_nat(*candidate)),
{
    let ghost n = big_nat(*candidate);
    let one = big_from_u64(1);
    let two = big_from_u64(2);
    if big_eq(candidate, &two) {
        proof {
            assert forall|q: nat| in_small_table(q) && q != n implies n % q != 0 by {
                vstd::arithmetic::div_mod::lemma_small_mod(n, q);
            };
        }
        return true;
    }
    if big_is_even(candidate) || big_eq(candidate, &one) {
        return false;
    }
    // n is odd and not 1, so at least 3
    let mut i: usize = 0;
    while i < primes.len()
        invariant
            n == big_nat(*candidate),
            n >= 3,
            n % 2 == 1,
            0 <= i <= primes.len(),
            forall|k: int| 0 <= k < primes@.len() ==> in_small_table(#[trigger] primes@[k] as nat),
            forall|q: nat| in_small_table(q) ==> primes@.contains(q as u64),
            forall|k: int| 0 <= k < i ==> #[trigger] (n % (primes@[k] as nat)) != 0,
        decreases primes.len() - i,
    {
        let p = primes[i];
        let r64 = big_mod_u64(candidate, p);
        if r64 == 0 {
            let pb = big_from_u64(p);
            let eq = big_eq(candidate, &pb);
            proof {
                let pn = p as nat;
                if eq {
                    // n is the entry itself, hence a table prime
                    assert(in_small_table(n));
                    assert forall|q: nat| in_small_table(q) && q != n implies n % q != 0 by {
                        crate::arith::lemma_prime_has_no_proper_divisor(n, q);
                    };
                } else {
                    // a proper table divisor: n cannot itself be a table prime
                    if in_small_table(n) {
                        crate::arith::lemma_prime_has_no_proper_divisor(n, pn);
                    }
                    assert(in_small_table(pn) && pn != n && n % pn == 0);
                }
            }
            return eq;
        }
        i = i + 1;
    }
    proof {
        assert forall|q: nat| in_small_table(q) implies n % q != 0 by {
            assert(primes@.contains(q as u64));
            let k = choose|k: int| 0 <= k < primes@.len() && primes@[k] == q as u64;
            assert(n % (primes@[k] as nat) != 0);
        };
        assert(!in_small_table(n)) by {
            if in_small_table(n) {
                assert(n % n != 0);
            }
        };
    }
    if !fermat(candidate) {
        return false;
    }
    if !miller_rabin(candidate, checks, force2) {
        return false;
    }
    true
}

/// The safe-prime test: `n` must be congruent to 2 modulo 3, and both `n`
/// and `(n - 1) / 2` must pass the layered primality test.
fn _is_safe_prime(primes: &Vec<u64>, candidate: &BigUint, checks: usize, force2: bool) -> (r: bool)
    requires
        is_prime_table(primes@),
    ensures
        big_nat(*candidate) % 3 != 2 ==> !r,
        (exists|q: nat|
            in_small_table(q) && q != big_nat(*candidate) && #[trigger] (big_nat(*candidate) % q)
                == 0) ==> !r,
        (exists|q: nat|
            in_small_table(q) && q != big_nat(*candidate) / 2 && #[trigger] (big_nat(*candidate)
                / 2 % q) == 0) ==> !r,
        r ==> big_nat(*candidate) % 3 == 2 && probable_prime_facts(big_nat(*candidate))
            && probable_prime_facts(big_nat(*candidate) / 2),
        (r && force2 && checks >= 1) ==> strong_witness_facts(big_nat(*candidate))
            && strong_witness_facts(big_nat(*candidate) / 2),
        (big_nat(*candidate) % 3 == 2 && in_small_table(big_nat(*candidate)) && (big_nat(
            *candidate,
        ) / 2 == 2 || in_small_table(big_nat(*candidate) / 2))) ==> r,
        !r ==> big_nat(*candidate) % 3 != 2 || rejection_grounds(big_nat(*candidate))
            || rejection_grounds(big_nat(*candidate) / 2),
{
    let three = big_from_u64(3);
    let two = big_from_u64(2);
    let m = big_mod(candidate, &three);
    if big_eq(&m, &two) && _is_prime(primes, candidate, checks, force2) {
        // a prime is odd here, so (n - 1) / 2 is one right shift
        let half = big_shr(candidate, 1);
        proof {
            vstd::arithmetic::power2::lemma2_to64();
        }
        return _is_prime(primes, &half, checks, force2);
    }
    false
}

/// Whether bit `i` of `x` is set; indices past the binary length read as
/// zero.
pub(crate) fn is_bit_set(x: &BigUint, i: u64) -> (r: bool)
    ensures
        r == ((big_nat(*x) / pow2(i as nat)) % 2 == 1),
{
    let bits = big_bits(x);
    if i >= bits {
        proof {
            lemma_shift_out(big_nat(*x), i as nat);
        }
        false
    } else {
        let shifted = big_shr(x, i);
        !big_is_even(&shifted)
    }
}

/// A proper multiple of a table prime always has a proper table divisor,
/// so `is_prime` rejects it: the table prime itself divides `k * p` and is
/// smaller than it.
pub proof fn lemma_table_multiple_rejected(p: nat, k: nat)
    requires
        in_small_table(p),
        k >= 2,
    ensures
        exists|q: nat| in_small_table(q) && q != k * p && #[trigger] ((k * p) % q) == 0,
{
    vstd::arithmetic::div_mod::lemma_mod_multiples_basic(k as int, p as int);
    assert((k * p) % p == 0);
    assert(k * p >= 2 * p) by (nonlinear_arith)
        requires
            k >= 2,
            p >= 0,
    ;
    assert(p != k * p);
    assert(in_small_table(p) && p != k * p && (k * p) % p == 0);
}

/// Tests whether `candidate` is a probable prime: trial division by the
/// small-prime table, a Fermat test, and `log2(bits) + 5` Miller-Rabin
/// rounds. Table entries answer `true`; proper multiples of a table entry
/// answer `false`.
pub fn is_prime(candidate: &BigUint) -> (r: bool)
    ensures
        big_nat(*candidate) == 2 ==> r,
        (big_nat(*candidate) != 2 && (big_nat(*candidate) % 2 == 0 || big_nat(*candidate) <= 1))
            ==> !r,
        in_small_table(big_nat(*candidate)) ==> r,
        (exists|q: nat|
            in_small_table(q) && q != big_nat(*candidate) && #[trigger] (big_nat(*candidate) % q)
                == 0) ==> !r,
        r ==> probable_prime_facts(big_nat(*candidate)),
        !r ==> rejection_grounds(big_nat(*candidate)),
{
    let primes = small_primes();
    let bits = big_bits(candidate);
    let checks = required_checks(bits as usize);
    _is_prime(&primes, candidate, checks, false)
}

/// Tests whether `candidate` is a safe prime: `candidate = 2 (mod 3)`, and
/// both `candidate` and `(candidate - 1) / 2` are probable primes.
pub fn is_safe_prime(candidate: &BigUint) -> (r: bool)
    ensures
        big_nat(*candidate) % 3 != 2 ==> !r,
        (exists|q: nat|
            in_small_table(q) && q != big_nat(*candidate) && #[trigger] (big_nat(*candidate) % q)
                == 0) ==> !r,
        (exists|q: nat|
            in_small_table(q) && q != big_nat(*candidate) / 2 && #[trigger] (big_nat(*candidate)
                / 2 % q) == 0) ==> !r,
        r ==> big_nat(*candidate) % 3 == 2 && probable_prime_facts(big_nat(*candidate))
            && probable_prime_facts(big_nat(*candidate) / 2),
        (big_nat(*candidate) % 3 == 2 && in_small_table(big_nat(*candidate)) && (big_nat(
            *candidate,
        ) / 2 == 2 || in_small_table(big_nat(*candidate) / 2))) ==> r,
        !r ==> big_nat(*candidate) % 3 != 2 || rejection_grounds(big_nat(*candidate))
            || rejection_grounds(big_nat(*candidate) / 2),
{
    let primes = small_primes();
    let bits = big_bits(candidate);
    let checks = required_checks(bits as usize);
    _is_safe_prime(&primes, candidate, checks, false)
}

/// The Baillie-PSW test: the layered test with a forced base-2 Miller-Rabin
/// round, then the almost extra strong Lucas test. A candidate on which
/// the Lucas parameter search would exhaust — believed impossible — is
/// rejected rather than reported as an error.
pub fn is_prime_baillie_psw(candidate: &BigUint) -> (r: bool)
    ensures
        big_nat(*candidate) == 2 ==> r,
        (big_nat(*candidate) != 2 && (big_nat(*candidate) % 2 == 0 || big_nat(*candidate) <= 1))
            ==> !r,
        (exists|q: nat|
            in_small_table(q) && q != big_nat(*candidate) && #[trigger] (big_nat(*candidate) % q)
                == 0) ==> !r,
        r ==> probable_prime_facts(big_nat(*candidate)),
        (r && big_nat(*candidate) != 2) ==> strong_witness_facts(big_nat(*candidate))
            && crate::lucas::lucas_decision(big_nat(*candidate)) == Some(true),
        (in_small_table(big_nat(*candidate)) && crate::lucas::lucas_decision(big_nat(*candidate))
            == Some(true)) ==> r,
        !r ==> rejection_grounds(big_nat(*candidate)) || crate::lucas::lucas_decision(
            big_nat(*candidate),
        ) != Some(true),
{
    let two = big_from_u64(2);
    if big_eq(candidate, &two) {
        proof {
            assert forall|q: nat|
                in_small_table(q) && q != big_nat(*candidate) implies big_nat(*candidate) % q
                != 0 by {
                vstd::arithmetic::div_mod::lemma_small_mod(big_nat(*candidate), q);
            };
        }
        return true;
    }
    let primes = small_primes();
    let bits = big_bits(candidate);
    let checks = required_checks(bits as usize);
    if !_is_prime(&primes, candidate, checks, true) {
        return false;
    }
    match crate::lucas::lucas(candidate) {
        Some(b) => b,
        None => false,
    }
}

/// The Baillie-PSW safe-prime test: as `is_safe_prime`, with the forced
/// base-2 round, and the Lucas test on the candidate itself.
pub fn is_safe_prime_baillie_psw(candidate: &BigUint) -> (r: bool)
    ensures
        big_nat(*candidate) % 3 != 2 ==> !r,
        (exists|q: nat|
            in_small_table(q) && q != big_nat(*candidate) && #[trigger] (big_nat(*candidate) % q)
                == 0) ==> !r,
        (exists|q: nat|
            in_small_table(q) && q != big_nat(*candidate) / 2 && #[trigger] (big_nat(*candidate)
                / 2 % q) == 0) ==> !r,
        r ==> big_nat(*candidate) % 3 == 2 && probable_prime_facts(big_nat(*candidate))
            && probable_prime_facts(big_nat(*candidate) / 2) && strong_witness_facts(
            big_nat(*candidate),
        ) && strong_witness_facts(big_nat(*candidate) / 2) && crate::lucas::lucas_decision(
            big_nat(*candidate),
        ) == Some(true),
        (big_nat(*candidate) % 3 == 2 && in_small_table(big_nat(*candidate)) && (big_nat(
            *candidate,
        ) / 2 == 2 || in_small_table(big_nat(*candidate) / 2)) && crate::lucas::lucas_decision(
            big_nat(*candidate),
        ) == Some(true)) ==> r,
        !r ==> big_nat(*candidate) % 3 != 2 || rejection_grounds(big_nat(*candidate))
            || rejection_grounds(big_nat(*candidate) / 2) || crate::lucas::lucas_decision(
            big_nat(*candidate),
        ) != Some(true),
{
    let primes = small_primes();
    let bits = big_bits(candidate);
    let checks = required_checks(bits as usize);
    if !_is_safe_prime(&primes, candidate, checks, true) {
        return false;
    }
    proof {
        // a passing candidate is odd: were it 2, its half 1 would have
        // failed the inner test
        assert(big_nat(*candidate) != 2);
    }
    match crate::lucas::lucas(candidate) {
        Some(b) => b,
        None => false,
    }
}

/// Shapes a fresh draw of at most `bit_length` bits into a candidate with
/// bit 0 and bit `bit_length - 1` set, then runs the strong layered test
/// and the Lucas test, returning the candidate if everything accepted.
fn check_candidate_with(primes: &Vec<u64>, draw: BigUint, bit_length: usize, checks: usize) -> (res:
    Option<BigUint>)
    requires
        is_prime_table(primes@),
        bit_length >= MIN_BIT_LENGTH,
        checks >= 1,
        big_nat(draw) < pow2(bit_length as nat),
    ensures
        res matches Some(n) ==> bit_len(big_nat(n)) == bit_length as nat && big_nat(n) % 2 == 1
            && probable_prime_facts(big_nat(n)) && strong_witness_facts(big_nat(n))
            && crate::lucas::lucas_decision(big_nat(n)) == Some(true),
{
    let mut candidate = big_set_low_bit(&draw);
    let mut blen = big_bits(&candidate);
    proof {
        vstd::arithmetic::power2::lemma_pow2_pos(bit_length as nat);
        // pow2(bit_length) is even, so making the draw odd keeps it below
        vstd::arithmetic::power2::lemma_pow2_unfold(bit_length as nat);
        vstd::arithmetic::div_mod::lemma_mod_multiples_basic(
            pow2((bit_length - 1) as nat) as int,
            2,
        );
    }
    while blen < bit_length as u64
        invariant
            bit_length >= MIN_BIT_LENGTH,
            blen as nat == bit_len(big_nat(candidate)),
            big_nat(candidate) % 2 == 1,
            big_nat(candidate) < pow2(bit_length as nat),
        decreases bit_length as u64 - blen,
    {
        let ghost oldv = big_nat(candidate);
        proof {
            lemma_bit_len_bounds(oldv);
            vstd::arithmetic::power::lemma_pow_increases(2, blen as nat, (bit_length - 1) as nat);
            vstd::arithmetic::power2::lemma_pow2(blen as nat);
            vstd::arithmetic::power2::lemma_pow2((bit_length - 1) as nat);
            assert(oldv < pow2((bit_length - 1) as nat));
            vstd::arithmetic::power2::lemma2_to64();
            vstd::arithmetic::power2::lemma_pow2_unfold(bit_length as nat);
            assert(oldv * 2 + 2 <= pow2((bit_length - 1) as nat) * 2) by (nonlinear_arith)
                requires
                    oldv < pow2((bit_length - 1) as nat),
            ;
            assert(pow2((bit_length - 1) as nat) * 2 == pow2(bit_length as nat));
            vstd::arithmetic::div_mod::lemma_mod_multiples_basic(oldv as int, 2);
        }
        candidate = big_shl(&candidate, 1);
        candidate = big_set_low_bit(&candidate);
        blen = big_bits(&candidate);
    }
    proof {
        crate::arith::lemma_bit_len_le(big_nat(candidate), bit_length as nat);
        assert(blen as nat == bit_length as nat);
        assert(big_nat(candidate) >= 3) by {
            lemma_bit_len_bounds(big_nat(candidate));
            vstd::arithmetic::power2::lemma2_to64();
            vstd::arithmetic::power::lemma_pow_increases(2, 7, (bit_length - 1) as nat);
            vstd::arithmetic::power2::lemma_pow2(7);
            vstd::arithmetic::power2::lemma_pow2((bit_length - 1) as nat);
        };
    }
    if _is_prime(primes, &candidate, checks, true) {
        let accepted = match crate::lucas::lucas(&candidate) {
            Some(b) => b,
            None => false,
        };
        if accepted {
            return Some(candidate);
        }
    }
    None
}

/// The generator's per-candidate step, for callers that bring their own
/// random source: shape a draw of at most `bit_length` bits and run the
/// strong layered test and the Lucas test. Returns nothing for a bit
/// length below the minimum, an oversized draw, or a rejected candidate.
pub fn check_candidate(draw: BigUint, bit_length: usize) -> (res: Option<BigUint>)
    ensures
        res matches Some(n) ==> bit_len(big_nat(n)) == bit_length as nat && big_nat(n) % 2 == 1
            && probable_prime_facts(big_nat(n)) && strong_witness_facts(big_nat(n))
            && crate::lucas::lucas_decision(big_nat(n)) == Some(true),
        bit_length < MIN_BIT_LENGTH ==> res is None,
{
    if bit_length < MIN_BIT_LENGTH {
        return None;
    }
    let dbits = big_bits(&draw);
    if dbits > bit_length as u64 {
        return None;
    }
    proof {
        lemma_bit_len_bounds(big_nat(draw));
        vstd::arithmetic::power::lemma_pow_increases(
            2,
            bit_len(big_nat(draw)),
            bit_length as nat,
        );
        vstd::arithmetic::power2::lemma_pow2(bit_len(big_nat(draw)));
        vstd::arithmetic::power2::lemma_pow2(bit_length as nat);
        assert(big_nat(draw) < pow2(bit_length as nat));
    }
    let primes = small_primes();
    let checks = required_checks(bit_length);
    check_candidate_with(&primes, draw, bit_length, checks)
}

/// The safe-prime filter on a freshly generated prime: 2 modulo 3, and the
/// half passes the strong layered test with `inner_checks` rounds.
fn check_safe_candidate_with(primes: &Vec<u64>, candidate: &BigUint, inner_checks: usize) -> (r:
    bool)
    requires
        is_prime_table(primes@),
    ensures
        r ==> big_nat(*candidate) % 3 == 2 && probable_prime_facts(big_nat(*candidate) / 2),
        (r && inner_checks >= 1) ==> strong_witness_facts(big_nat(*candidate) / 2),
        !r ==> big_nat(*candidate) % 3 != 2 || rejection_grounds(big_nat(*candidate) / 2),
{
    let three = big_from_u64(3);
    let two = big_from_u64(2);
    let m = big_mod(candidate, &three);
    if big_eq(&m, &two) {
        // the candidate is odd here, so the half is one right shift
        let half = big_shr(candidate, 1);
        proof {
            vstd::arithmetic::power2::lemma2_to64();
        }
        return _is_prime(primes, &half, inner_checks, true);
    }
    false
}

/// The safe-prime filter, for callers that run the generation loop
/// themselves: the candidate must be 2 modulo 3 and its half must pass the
/// strong layered test with five fewer rounds than a `bit_length`-bit
/// candidate gets.
pub fn check_safe_candidate(candidate: &BigUint, bit_length: usize) -> (r: bool)
    ensures
        r ==> big_nat(*candidate) % 3 == 2 && probable_prime_facts(big_nat(*candidate) / 2),
        (r && bit_length >= 2) ==> strong_witness_facts(big_nat(*candidate) / 2),
        !r ==> big_nat(*candidate) % 3 != 2 || rejection_grounds(big_nat(*candidate) / 2),
{
    let primes = small_primes();
    let checks = required_checks(bit_length);
    let inner_checks = checks - 5;
    proof {
        if bit_length >= 2 {
            assert(log2_floor(bit_length as nat) >= 1);
        }
    }
    check_safe_candidate_with(&primes, candidate, inner_checks)
}

/// Generates a probable prime of exactly `bit_length` bits: draw an odd
/// candidate, force the top bit by shifting, and accept the first candidate
/// that passes the strong layered test and the Lucas test. The number of
/// draws is bounded only to witness termination; exhausting them would mean
/// a broken entropy source, reported as `RngFailure`.
pub fn gen_prime(bit_length: usize) -> (res: Result<BigUint, Error>)
    ensures
        bit_length < MIN_BIT_LENGTH ==> (res matches Err(e) && e == Error::BitLength(bit_length)),
        res matches Err(e) ==> (e matches Error::BitLength(b) ==> (bit_length < MIN_BIT_LENGTH
            && b == bit_length)),
        res matches Ok(n) ==> bit_len(big_nat(n)) == bit_length as nat && big_nat(n) % 2 == 1
            && probable_prime_facts(big_nat(n)) && strong_witness_facts(big_nat(n))
            && crate::lucas::lucas_decision(big_nat(n)) == Some(true),
{
    if bit_length < MIN_BIT_LENGTH {
        return Err(Error::BitLength(bit_length));
    }
    let checks = required_checks(bit_length);
    let primes = small_primes();
    let mut attempts: u64 = 0;
    while attempts < u64::MAX
        invariant
            bit_length >= MIN_BIT_LENGTH,
            checks >= 1,
            is_prime_table(primes@),
        decreases u64::MAX - attempts,
    {
        let draw = os_gen_biguint(bit_length as u64);
        match check_candidate_with(&primes, draw, bit_length, checks) {
            Some(n) => {
                return Ok(n);
            },
            None => {},
        }
        attempts = attempts + 1;
    }
    Err(Error::RngFailure)
}

/// Generates a safe prime of exactly `bit_length` bits: draw probable
/// primes until one is congruent to 2 modulo 3 and its half also passes the
/// strong layered test, with five fewer Miller-Rabin rounds for the half.
pub fn gen_safe_prime(bit_length: usize) -> (res: Result<BigUint, Error>)
    ensures
        bit_length < MIN_BIT_LENGTH ==> (res matches Err(e) && e == Error::BitLength(bit_length)),
        res matches Err(e) ==> (e matches Error::BitLength(b) ==> (bit_length < MIN_BIT_LENGTH
            && b == bit_length)),
        res matches Ok(n) ==> bit_len(big_nat(n)) == bit_length as nat && big_nat(n) % 2 == 1
            && big_nat(n) % 3 == 2 && probable_prime_facts(big_nat(n)) && strong_witness_facts(
            big_nat(n),
        ) && crate::lucas::lucas_decision(big_nat(n)) == Some(true) && probable_prime_facts(
            big_nat(n) / 2,
        ) && strong_witness_facts(big_nat(n) / 2),
{
    if bit_length < MIN_BIT_LENGTH {
        return Err(Error::BitLength(bit_length));
    }
    let checks = required_checks(bit_length);
    let inner_checks = checks - 5;
    proof {
        assert(log2_floor(bit_length as nat) >= 1);
    }
    let primes = small_primes();
    let mut attempts: u64 = 0;
    while attempts < u64::MAX
        invariant
            bit_length >= MIN_BIT_LENGTH,
            inner_checks >= 1,
            is_prime_table(primes@),
        decreases u64::MAX - attempts,
    {
        let candidate = match gen_prime(bit_length) {
            Ok(c) => c,
            Err(e) => {
                return Err(e);
            },
        };
        if check_safe_candidate_with(&primes, &candidate, inner_checks) {
            return Ok(candidate);
        }
        attempts = attempts + 1;
    }
    Err(Error::RngFailure)
}

} // verus!
