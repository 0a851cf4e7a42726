//! The Jacobi symbol `(a/b)` for odd `b`, computed by the law of quadratic
//! reciprocity.
//!
//! The Lucas parameter search consults it: the search wants the first `P`
//! with `(P^2 - 4 / n) = -1`.

use vstd::arithmetic::power2::pow2;
use vstd::prelude::*;

use num_bigint::BigUint;

use crate::arith::{factor2, lemma_odd_part_le, lemma_two_adic_decomposition, odd_part};
use crate::bigint::{big_clone, big_eq, big_from_u64, big_is_even, big_mod, big_mod_u64, big_nat, big_shr};
use crate::common::trailing_zeros;

verus! {

/// The Jacobi symbol `(a/b)` for odd `b >= 1`, by the standard reduction:
/// `(a/1) = 1`; `(a/b) = 0` when `b` divides `a`; otherwise reduce `a`
/// modulo `b`, pull the factors of two out of the remainder (each pair is
/// neutral, a leftover factor flips the sign when `b = 3, 5 (mod 8)`), and
/// apply quadratic reciprocity to swap the arguments (flipping the sign
/// when both are `3 (mod 4)`).
pub open spec fn jacobi_spec(a: nat, b: nat) -> int
    recommends
        b % 2 == 1,
    decreases b,
    via jacobi_spec_decreases
{
    if b <= 1 {
        1
    } else if a % b == 0 {
        0
    } else {
        let a1 = a % b;
        let s = factor2(a1);
        let c = odd_part(a1);
        let flip = (s % 2 == 1 && (b % 8 == 3 || b % 8 == 5)) != (b % 4 == 3 && c % 4 == 3);
        if flip {
            -jacobi_spec(b, c)
        } else {
            jacobi_spec(b, c)
        }
    }
}

#[via_fn]
proof fn jacobi_spec_decreases(a: nat, b: nat) {
    if b > 1 && a % b != 0 {
        lemma_odd_part_le(a % b);
    }
}

/// The symbol only takes the values -1, 0 and 1.
pub proof fn lemma_jacobi_range(a: nat, b: nat)
    ensures
        jacobi_spec(a, b) == -1 || jacobi_spec(a, b) == 0 || jacobi_spec(a, b) == 1,
    decreases b,
{
    if b > 1 && a % b != 0 {
        lemma_odd_part_le(a % b);
        lemma_jacobi_range(b, odd_part((a % b) as nat));
    }
}

/// `(0/y) = 0` for `y > 1`.
pub proof fn lemma_jacobi_zero_numerator(y: nat)
    requires
        y > 1,
    ensures
        jacobi_spec(0, y) == 0,
{
    vstd::arithmetic::div_mod::lemma_small_mod(0, y);
}

/// `(1/y) = 1` for every odd `y >= 1`.
pub proof fn lemma_jacobi_one_numerator(y: nat)
    requires
        y >= 1,
    ensures
        jacobi_spec(1, y) == 1,
{
    if y > 1 {
        vstd::arithmetic::div_mod::lemma_small_mod(1, y);
        assert(1nat % y == 1);
        assert(factor2(1) == 0);
        assert(odd_part(1) == 1);
        assert(jacobi_spec(y, 1) == 1);
    }
}

/// Computes the Jacobi symbol `(x/y)`; `y` must be odd, else nothing is
/// computed.
pub fn jacobi(x: &BigUint, y: &BigUint) -> (r: Option<i32>)
    ensures
        match r {
            Some(j) => big_nat(*y) % 2 == 1 && j as int == jacobi_spec(big_nat(*x), big_nat(*y)),
            None => big_nat(*y) % 2 == 0,
        },
{
    if big_is_even(y) {
        return None;
    }
    let ghost a0 = big_nat(*x);
    let ghost b0 = big_nat(*y);
    let one = big_from_u64(1);
    let mut a = big_clone(x);
    let mut b = big_clone(y);
    let mut j: i32 = 1;
    loop
        invariant
            big_nat(one) == 1,
            a0 == big_nat(*x),
            b0 == big_nat(*y),
            b0 % 2 == 1,
            big_nat(b) % 2 == 1,
            big_nat(b) >= 1,
            j == 1 || j == -1,
            jacobi_spec(a0, b0) == j as int * jacobi_spec(big_nat(a), big_nat(b)),
        decreases big_nat(b),
    {
        if big_eq(&b, &one) {
            return Some(j);
        }
        let ghost a_pre = big_nat(a);
        a = big_mod(&a, &b);
        if big_eq(&a, &big_from_u64(0)) {
            return Some(0);
        }
        // a is now in [1, b): pull out its factors of two and swap
        let ghost a1 = big_nat(a);
        proof {
            lemma_two_adic_decomposition(a1);
            lemma_odd_part_le(a1);
        }
        let s = trailing_zeros(&a);
        let c = big_shr(&a, s);
        proof {
            vstd::arithmetic::power2::lemma_pow2_pos(factor2(a1));
            vstd::arithmetic::div_mod::lemma_div_multiples_vanish(
                odd_part(a1) as int,
                pow2(factor2(a1)) as int,
            );
        }
        let mut flip = false;
        if s % 2 == 1 {
            let bmod8 = big_mod_u64(&b, 8);
            if bmod8 == 3 || bmod8 == 5 {
                flip = !flip;
            }
        }
        let bmod4 = big_mod_u64(&b, 4);
        let cmod4 = big_mod_u64(&c, 4);
        if bmod4 == 3 && cmod4 == 3 {
            flip = !flip;
        }
        proof {
            let bv = big_nat(b);
            let cv = odd_part(a1);
            assert(big_nat(c) == cv);
            let sflip = ((factor2(a1) % 2 == 1 && (bv % 8 == 3 || bv % 8 == 5)) != (bv % 4 == 3
                && cv % 4 == 3));
            assert(flip == sflip);
            assert(jacobi_spec(a_pre, bv) == (if sflip {
                -jacobi_spec(bv, cv)
            } else {
                jacobi_spec(bv, cv)
            }));
            assert(j as int * (-jacobi_spec(bv, cv)) == (-(j as int)) * jacobi_spec(bv, cv))
                by (nonlinear_arith);
        }
        if flip {
            j = -j;
        }
        a = b;
        b = c;
    }
}

} // verus!
