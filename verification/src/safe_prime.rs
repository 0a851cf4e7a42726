//! Generates and checks cryptographically secure safe prime numbers:
//! primes `p` for which `(p - 1) / 2` is also prime.

use vstd::prelude::*;

use num_bigint::BigUint;

use crate::arith::bit_len;
use crate::bigint::big_nat;
use crate::common::{
    gen_safe_prime, is_safe_prime, is_safe_prime_baillie_psw, probable_prime_facts,
    rejection_grounds, strong_witness_facts, MIN_BIT_LENGTH,
};
use crate::error::Error;
use crate::table::in_small_table;

verus! {

/// Constructs a new safe prime with a size of `bit_length` bits, drawn
/// from the operating system's random source. The `bit_length` must be at
/// least 128 bits.
pub fn new(bit_length: usize) -> (res: Result<BigUint, Error>)
    ensures
        bit_length < MIN_BIT_LENGTH ==> (res matches Err(e) && e == Error::BitLength(bit_length)),
        res matches Err(e) ==> (e matches Error::BitLength(b) ==> (bit_length < MIN_BIT_LENGTH
            && b == bit_length)),
        res matches Ok(n) ==> bit_len(big_nat(n)) == bit_length as nat && big_nat(n) % 2 == 1
            && big_nat(n) % 3 == 2 && probable_prime_facts(big_nat(n)) && strong_witness_facts(
            big_nat(n),
        ) && crate::lucas::lucas_decision(big_nat(n)) == Some(true) && probable_prime_facts(
            big_nat(n) / 2,
        ) && strong_witness_facts(big_nat(n) / 2),
{
    gen_safe_prime(bit_length)
}

/// Tests if a number is a safe prime.
pub fn check(candidate: &BigUint) -> (r: bool)
    ensures
        big_nat(*candidate) % 3 != 2 ==> !r,
        (exists|q: nat|
            in_small_table(q) && q != big_nat(*candidate) && #[trigger] (big_nat(*candidate) % q)
                == 0) ==> !r,
        (exists|q: nat|
            in_small_table(q) && q != big_nat(*candidate) / 2 && #[trigger] (big_nat(*candidate)
                / 2 % q) == 0) ==> !r,
        r ==> big_nat(*candidate) % 3 == 2 && probable_prime_facts(big_nat(*candidate))
            && probable_prime_facts(big_nat(*candidate) / 2),
        (big_nat(*candidate) % 3 == 2 && in_small_table(big_nat(*candidate)) && (big_nat(
            *candidate,
        ) / 2 == 2 || in_small_table(big_nat(*candidate) / 2))) ==> r,
        !r ==> big_nat(*candidate) % 3 != 2 || rejection_grounds(big_nat(*candidate))
            || rejection_grounds(big_nat(*candidate) / 2),
{
    is_safe_prime(candidate)
}

/// Tests if a number is a safe prime with the Baillie-PSW test.
pub fn strong_check(candidate: &BigUint) -> (r: bool)
    ensures
        big_nat(*candidate) % 3 != 2 ==> !r,
        (exists|q: nat|
            in_small_table(q) && q != big_nat(*candidate) && #[trigger] (big_nat(*candidate) % q)
                == 0) ==> !r,
        (exists|q: nat|
            in_small_table(q) && q != big_nat(*candidate) / 2 && #[trigger] (big_nat(*candidate)
                / 2 % q) == 0) ==> !r,
        r ==> big_nat(*candidate) % 3 == 2 && probable_prime_facts(big_nat(*candidate))
            && probable_prime_facts(big_nat(*candidate) / 2) && strong_witness_facts(
            big_nat(*candidate),
        ) && strong_witness_facts(big_nat(*candidate) / 2) && crate::lucas::lucas_decision(
            big_nat(*candidate),
        ) == Some(true),
        (big_nat(*candidate) % 3 == 2 && in_small_table(big_nat(*candidate)) && (big_nat(
            *candidate,
        ) / 2 == 2 || in_small_table(big_nat(*candidate) / 2)) && crate::lucas::lucas_decision(
            big_nat(*candidate),
        ) == Some(true)) ==> r,
        !r ==> big_nat(*candidate) % 3 != 2 || rejection_grounds(big_nat(*candidate))
            || rejection_grounds(big_nat(*candidate) / 2) || crate::lucas::lucas_decision(
            big_nat(*candidate),
        ) != Some(true),
{
    is_safe_prime_baillie_psw(candidate)
}

} // verus!
