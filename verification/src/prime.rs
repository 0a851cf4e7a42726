//! Generates and checks cryptographically secure prime numbers.

use vstd::prelude::*;

use num_bigint::BigUint;

use crate::arith::bit_len;
use crate::bigint::big_nat;
use crate::common::{
    gen_prime, is_prime, is_prime_baillie_psw, probable_prime_facts, rejection_grounds,
    strong_witness_facts, MIN_BIT_LENGTH,
};
use crate::error::Error;
use crate::table::in_small_table;

verus! {

/// Constructs a new prime number with a size of `bit_length` bits, drawn
/// from the operating system's random source. The `bit_length` must be at
/// least 128 bits.
pub fn new(bit_length: usize) -> (res: Result<BigUint, Error>)
    ensures
        bit_length < MIN_BIT_LENGTH ==> (res matches Err(e) && e == Error::BitLength(bit_length)),
        res matches Err(e) ==> (e matches Error::BitLength(b) ==> (bit_length < MIN_BIT_LENGTH
            && b == bit_length)),
        res matches Ok(n) ==> bit_len(big_nat(n)) == bit_length as nat && big_nat(n) % 2 == 1
            && probable_prime_facts(big_nat(n)) && strong_witness_facts(big_nat(n))
            && crate::lucas::lucas_decision(big_nat(n)) == Some(true),
{
    gen_prime(bit_length)
}

/// Tests if a number is a probable prime: trial division by the first 2048
/// odd primes, a Fermat test, and `log2(bits) + 5` Miller-Rabin rounds.
pub fn check(candidate: &BigUint) -> (r: bool)
    ensures
        big_nat(*candidate) == 2 ==> r,
        (big_nat(*candidate) != 2 && (big_nat(*candidate) % 2 == 0 || big_nat(*candidate) <= 1))
            ==> !r,
        in_small_table(big_nat(*candidate)) ==> r,
        (exists|q: nat|
            in_small_table(q) && q != big_nat(*candidate) && #[trigger] (big_nat(*candidate) % q)
                == 0) ==> !r,
        r ==> probable_prime_facts(big_nat(*candidate)),
        !r ==> rejection_grounds(big_nat(*candidate)),
{
    is_prime(candidate)
}

/// Tests if a number is a probable prime with the Baillie-PSW test.
pub fn strong_check(candidate: &BigUint) -> (r: bool)
    ensures
        big_nat(*candidate) == 2 ==> r,
        (big_nat(*candidate) != 2 && (big_nat(*candidate) % 2 == 0 || big_nat(*candidate) <= 1))
            ==> !r,
        (exists|q: nat|
            in_small_table(q) && q != big_nat(*candidate) && #[trigger] (big_nat(*candidate) % q)
                == 0) ==> !r,
        r ==> probable_prime_facts(big_nat(*candidate)),
        (r && big_nat(*candidate) != 2) ==> strong_witness_facts(big_nat(*candidate))
            && crate::lucas::lucas_decision(big_nat(*candidate)) == Some(true),
        (in_small_table(big_nat(*candidate)) && crate::lucas::lucas_decision(big_nat(*candidate))
            == Some(true)) ==> r,
        !r ==> rejection_grounds(big_nat(*candidate)) || crate::lucas::lucas_decision(
            big_nat(*candidate),
        ) != Some(true),
{
    is_prime_baillie_psw(candidate)
}

} // verus!
