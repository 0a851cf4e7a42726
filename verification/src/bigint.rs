//! Trusted boundary around `num_bigint::BigUint`, the arbitrary-precision
//! non-negative integer this crate computes with.
//!
//! The value a `BigUint` holds is named by the uninterpreted view `big_nat`;
//! each wrapper below performs one `num_bigint` (or random-sampling)
//! operation and states, over that view, what the operation's documentation
//! and source promise. Everything else in the crate is verified against
//! these contracts.

use vstd::arithmetic::power::pow;
use vstd::arithmetic::power2::pow2;
use vstd::prelude::*;

use num_bigint::{BigUint, RandBigInt};
use num_integer::Integer;
use num_traits::ToPrimitive;
use rand::thread_rng;
use rand_core::OsRng;

verus! {

#[verifier::external_type_specification]
#[verifier::external_body]
pub struct ExBigUint(BigUint);

/// The natural number a `BigUint` holds.
pub uninterp spec fn big_nat(b: BigUint) -> nat;

/// Relies on `BigUint: From<u64>`: the conversion keeps the value.
#[verifier::external_body]
pub(crate) fn big_from_u64(v: u64) -> (r: BigUint)
    ensures
        big_nat(r) == v as nat,
{
    BigUint::from(v)
}

/// Relies on `BigUint: Clone`: the copy holds the same value.
#[verifier::external_body]
pub(crate) fn big_clone(a: &BigUint) -> (r: BigUint)
    ensures
        big_nat(r) == big_nat(*a),
{
    a.clone()
}

/// Relies on `BigUint: PartialEq`: equality of the held values.
#[verifier::external_body]
pub(crate) fn big_eq(a: &BigUint, b: &BigUint) -> (r: bool)
    ensures
        r == (big_nat(*a) == big_nat(*b)),
{
    a == b
}

/// Relies on `BigUint: PartialOrd`: the order of the held values.
#[verifier::external_body]
pub(crate) fn big_lt(a: &BigUint, b: &BigUint) -> (r: bool)
    ensures
        r == (big_nat(*a) < big_nat(*b)),
{
    a < b
}

/// Relies on `Add for BigUint`.
#[verifier::external_body]
pub(crate) fn big_add(a: &BigUint, b: &BigUint) -> (r: BigUint)
    ensures
        big_nat(r) == big_nat(*a) + big_nat(*b),
{
    a + b
}

/// Relies on `Sub for BigUint`, which panics on underflow: the precondition
/// keeps the difference non-negative.
#[verifier::external_body]
pub(crate) fn big_sub(a: &BigUint, b: &BigUint) -> (r: BigUint)
    requires
        big_nat(*b) <= big_nat(*a),
    ensures
        big_nat(r) == big_nat(*a) - big_nat(*b),
{
    a - b
}

/// Relies on `Mul for BigUint`.
#[verifier::external_body]
pub(crate) fn big_mul(a: &BigUint, b: &BigUint) -> (r: BigUint)
    ensures
        big_nat(r) == big_nat(*a) * big_nat(*b),
{
    a * b
}

/// Relies on `Rem for BigUint`, which panics on a zero divisor.
#[verifier::external_body]
pub(crate) fn big_mod(a: &BigUint, b: &BigUint) -> (r: BigUint)
    requires
        big_nat(*b) > 0,
    ensures
        big_nat(r) == big_nat(*a) % big_nat(*b),
{
    a % b
}

/// Relies on `Rem<u64> for BigUint`, which panics on a zero divisor; the
/// remainder is below `m` and so fits back into a `u64`.
#[verifier::external_body]
pub(crate) fn big_mod_u64(a: &BigUint, m: u64) -> (r: u64)
    requires
        m > 0,
    ensures
        r as nat == big_nat(*a) % (m as nat),
{
    (a % m).to_u64().unwrap()
}

/// Relies on `Shl<u64> for BigUint`: a left shift multiplies by a power
/// of two.
#[verifier::external_body]
pub(crate) fn big_shl(a: &BigUint, k: u64) -> (r: BigUint)
    ensures
        big_nat(r) == big_nat(*a) * pow2(k as nat),
{
    a << k
}

/// Relies on `Shr<u64> for BigUint`: a right shift divides by a power of
/// two, rounding down.
#[verifier::external_body]
pub(crate) fn big_shr(a: &BigUint, k: u64) -> (r: BigUint)
    ensures
        big_nat(r) == big_nat(*a) / pow2(k as nat),
{
    a >> k
}

/// Relies on `BitOr for BigUint`: setting bit 0 makes the value odd and
/// changes nothing else.
#[verifier::external_body]
pub(crate) fn big_set_low_bit(a: &BigUint) -> (r: BigUint)
    ensures
        big_nat(r) == if big_nat(*a) % 2 == 1 {
            big_nat(*a)
        } else {
            big_nat(*a) + 1
        },
{
    a | BigUint::from(1_u64)
}

/// Relies on `num_integer::Integer::is_even` for `BigUint`.
#[verifier::external_body]
pub(crate) fn big_is_even(a: &BigUint) -> (r: bool)
    ensures
        r == (big_nat(*a) % 2 == 0),
{
    Integer::is_even(a)
}

/// Relies on `BigUint::bits`: the fewest bits that express the value, 0 for
/// the value 0.
#[verifier::external_body]
pub(crate) fn big_bits(a: &BigUint) -> (r: u64)
    ensures
        r as nat == crate::arith::bit_len(big_nat(*a)),
{
    a.bits()
}

/// Relies on `BigUint::modpow`, documented as `(self ^ exponent) % modulus`.
/// It panics on a zero modulus, and for the modulus 1 with a zero exponent
/// it returns 1 rather than 0, so a modulus of at least 2 is required.
#[verifier::external_body]
pub(crate) fn big_modpow(base: &BigUint, exponent: &BigUint, modulus: &BigUint) -> (r: BigUint)
    requires
        big_nat(*modulus) >= 2,
    ensures
        big_nat(r) as int == pow(big_nat(*base) as int, big_nat(*exponent)) % (big_nat(
            *modulus,
        ) as int),
{
    base.modpow(exponent, modulus)
}

/// Relies on `BigUint::sqrt`: the truncated principal square root.
#[verifier::external_body]
pub(crate) fn big_sqrt(a: &BigUint) -> (r: BigUint)
    ensures
        big_nat(r) * big_nat(r) <= big_nat(*a),
        big_nat(*a) < (big_nat(r) + 1) * (big_nat(r) + 1),
{
    a.sqrt()
}

/// Relies on `RandBigInt::gen_biguint` on the operating system's entropy
/// source: a sample of the given bit size, so below `pow2(bit_size)`.
/// Nothing more is assumed of a random sample.
#[verifier::external_body]
pub(crate) fn os_gen_biguint(bit_size: u64) -> (r: BigUint)
    ensures
        big_nat(r) < pow2(bit_size as nat),
{
    OsRng.gen_biguint(bit_size)
}

/// Relies on `RandBigInt::gen_biguint_range` on the thread-local generator:
/// a sample in `[lo, hi)`, which panics unless `lo < hi`. Nothing more is
/// assumed of a random sample.
#[verifier::external_body]
pub(crate) fn rand_biguint_range(lo: &BigUint, hi: &BigUint) -> (r: BigUint)
    requires
        big_nat(*lo) < big_nat(*hi),
    ensures
        big_nat(*lo) <= big_nat(r) < big_nat(*hi),
{
    thread_rng().gen_biguint_range(lo, hi)
}

} // verus!
