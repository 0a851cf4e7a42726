//! Number-theoretic specification functions shared by the whole crate, and
//! the lemmas that relate them: primality, binary length, the 2-adic
//! decomposition of an integer, and the floor of the base-2 logarithm.

use vstd::arithmetic::power2::{lemma_pow2_strictly_increases, lemma_pow2_unfold, pow2};
use vstd::prelude::*;

verus! {

/// `n` is prime: at least 2, and no integer in `[2, n)` divides it.
pub open spec fn is_prime_spec(n: nat) -> bool {
    n >= 2 && forall|d: nat| 2 <= d < n ==> #[trigger] (n % d) != 0
}

/// Number of bits needed to write `n` in binary; 0 for 0.
pub open spec fn bit_len(n: nat) -> nat
    decreases n,
{
    if n == 0 {
        0
    } else {
        bit_len(n / 2) + 1
    }
}

/// Floor of the base-2 logarithm of `n`; 0 when `n < 2`.
pub open spec fn log2_floor(n: nat) -> nat
    decreases n,
{
    if n < 2 {
        0
    } else {
        log2_floor(n / 2) + 1
    }
}

/// Exponent of the largest power of two dividing `n`; 0 for odd `n` and for 0.
pub open spec fn factor2(n: nat) -> nat
    decreases n,
{
    if n == 0 || n % 2 == 1 {
        0
    } else {
        factor2(n / 2) + 1
    }
}

/// The odd number left after all factors of two are removed from `n`; 0 for 0.
pub open spec fn odd_part(n: nat) -> nat
    decreases n,
{
    if n == 0 || n % 2 == 1 {
        n
    } else {
        odd_part(n / 2)
    }
}

/// `n` is a perfect square.
pub open spec fn is_square(n: nat) -> bool {
    exists|m: nat| #[trigger] (m * m) == n
}

/// `n` fits in exactly `bit_len(n)` bits: it is below `pow2(bit_len(n))` and,
/// unless zero, at least `pow2(bit_len(n) - 1)`.
pub proof fn lemma_bit_len_bounds(n: nat)
    ensures
        n < pow2(bit_len(n)),
        n >= 1 ==> pow2((bit_len(n) - 1) as nat) <= n,
    decreases n,
{
    if n == 0 {
        vstd::arithmetic::power2::lemma2_to64();
    } else {
        lemma_bit_len_bounds(n / 2);
        lemma_pow2_unfold(bit_len(n));
        if n / 2 == 0 {
            vstd::arithmetic::power2::lemma2_to64();
        } else {
            lemma_pow2_unfold((bit_len(n) - 1) as nat);
        }
    }
}

/// Removing all factors of two decomposes `n >= 1` as an exact product
/// `pow2(factor2(n)) * odd_part(n)` with an odd cofactor.
pub proof fn lemma_two_adic_decomposition(n: nat)
    requires
        n >= 1,
    ensures
        odd_part(n) % 2 == 1,
        n == pow2(factor2(n)) * odd_part(n),
        odd_part(n) >= 1,
    decreases n,
{
    if n % 2 == 1 {
        vstd::arithmetic::power2::lemma2_to64();
        assert(factor2(n) == 0);
        assert(odd_part(n) == n);
        assert(pow2(0) * n == n);
    } else {
        lemma_two_adic_decomposition(n / 2);
        assert(factor2(n) == factor2(n / 2) + 1);
        assert(odd_part(n) == odd_part(n / 2));
        lemma_pow2_unfold(factor2(n));
        assert(pow2(factor2(n)) == 2 * pow2(factor2(n / 2)));
        assert(pow2(factor2(n)) * odd_part(n) == 2 * (pow2(factor2(n / 2)) * odd_part(n / 2)))
            by {
            vstd::arithmetic::mul::lemma_mul_is_associative(
                2,
                pow2(factor2(n / 2)) as int,
                odd_part(n / 2) as int,
            );
        };
        assert(n == 2 * (n / 2));
    }
}

/// The odd part of a value never exceeds the value.
pub proof fn lemma_odd_part_le(m: nat)
    ensures
        odd_part(m) <= m,
    decreases m,
{
    if m >= 1 && m % 2 == 0 {
        lemma_odd_part_le(m / 2);
    }
}

/// A prime has no divisor of at least 2 other than itself.
pub proof fn lemma_prime_has_no_proper_divisor(n: nat, q: nat)
    requires
        is_prime_spec(n),
        q >= 2,
        q != n,
    ensures
        n % q != 0,
{
    if q > n {
        vstd::arithmetic::div_mod::lemma_small_mod(n, q);
    }
}

/// A value below `pow2(k)` fits in `k` bits.
pub proof fn lemma_bit_len_le(n: nat, k: nat)
    requires
        n < pow2(k),
    ensures
        bit_len(n) <= k,
{
    lemma_bit_len_bounds(n);
    if bit_len(n) > k {
        vstd::arithmetic::power2::lemma_pow2(k);
        vstd::arithmetic::power2::lemma_pow2((bit_len(n) - 1) as nat);
        vstd::arithmetic::power::lemma_pow_increases(2, k, (bit_len(n) - 1) as nat);
        assert(false);
    }
}

/// `pow2(factor2(n))` divides `n`, so its exponent stays below the binary
/// length of `n`.
pub proof fn lemma_factor2_lt_bit_len(n: nat)
    requires
        n >= 1,
    ensures
        factor2(n) < bit_len(n),
        pow2(factor2(n)) <= n,
{
    lemma_two_adic_decomposition(n);
    lemma_bit_len_bounds(n);
    assert(pow2(factor2(n)) * 1 <= pow2(factor2(n)) * odd_part(n)) by {
        vstd::arithmetic::power2::lemma_pow2_pos(factor2(n));
        vstd::arithmetic::mul::lemma_mul_left_inequality(
            pow2(factor2(n)) as int,
            1,
            odd_part(n) as int,
        );
    };
    assert(pow2(factor2(n)) <= n);
    if factor2(n) >= bit_len(n) {
        if factor2(n) > bit_len(n) {
            lemma_pow2_strictly_increases(bit_len(n), factor2(n));
        }
        assert(false);
    }
}

/// Shifting a value right by its full binary length or more leaves zero.
pub proof fn lemma_shift_out(n: nat, i: nat)
    requires
        bit_len(n) <= i,
    ensures
        n / pow2(i) == 0,
{
    lemma_bit_len_bounds(n);
    if bit_len(n) < i {
        lemma_pow2_strictly_increases(bit_len(n), i);
    }
    vstd::arithmetic::power2::lemma_pow2_pos(i);
    vstd::arithmetic::div_mod::lemma_basic_div(n as int, pow2(i) as int);
}

/// Reading a binary number one bit further splits off the next bit:
/// the quotient by `pow2(i)` is twice the quotient by `pow2(i + 1)` plus
/// the bit at index `i`.
pub proof fn lemma_div_pow2_step(s: nat, i: nat)
    ensures
        s / pow2(i) == 2 * (s / pow2(i + 1)) + ((s / pow2(i)) % 2),
{
    vstd::arithmetic::power2::lemma_pow2_pos(i);
    lemma_pow2_unfold(i + 1);
    vstd::arithmetic::div_mod::lemma_div_denominator(s as int, pow2(i) as int, 2);
    assert((s / pow2(i)) / 2 == s as int / (pow2(i) as int * 2));
}

/// For a positive modulus, two values are congruent exactly when their
/// (non-negative) difference is a multiple of the modulus.
pub proof fn lemma_mod_diff_zero(a: int, b: int, n: int)
    requires
        n > 0,
        0 <= b <= a,
    ensures
        ((a - b) % n == 0) <==> (a % n == b % n),
{
    vstd::arithmetic::div_mod::lemma_sub_mod_noop(a, b, n);
    let d = a % n - b % n;
    if (a - b) % n == 0 {
        if d > 0 {
            vstd::arithmetic::div_mod::lemma_small_mod(d as nat, n as nat);
        } else if d < 0 {
            vstd::arithmetic::div_mod::lemma_mod_add_multiples_vanish(d, n);
            vstd::arithmetic::div_mod::lemma_small_mod((d + n) as nat, n as nat);
        }
    } else {
        if a % n == b % n {
            vstd::arithmetic::div_mod::lemma_small_mod(0, n as nat);
            assert(((a % n) - (b % n)) % n == 0);
        }
    }
}

/// For `n >= 1` the binary length is one more than the floor logarithm.
pub proof fn lemma_bit_len_log2(n: nat)
    requires
        n >= 1,
    ensures
        bit_len(n) == log2_floor(n) + 1,
    decreases n,
{
    if n >= 2 {
        lemma_bit_len_log2(n / 2);
    } else {
        assert(bit_len(1nat) == bit_len(0nat) + 1);
        assert(bit_len(0nat) == 0);
        assert(log2_floor(1nat) == 0);
    }
}

} // verus!
