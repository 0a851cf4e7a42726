//! The almost extra strong Lucas probable-prime test, with Baillie's
//! "method C" choice of parameters: increase `P` from 3 until the Jacobi
//! symbol `(P^2 - 4 / n)` is -1 (so `Q = 1`), then test the Lucas
//! V-sequence at subscript `s`, where `n + 1 = 2^r s` with `s` odd.

use vstd::arithmetic::power2::{lemma_pow2_pos, lemma_pow2_unfold, pow2};
use vstd::prelude::*;

use num_bigint::BigUint;

use crate::arith::{
    factor2, is_square, lemma_div_pow2_step, lemma_mod_diff_zero, lemma_two_adic_decomposition,
    odd_part,
};
use crate::bigint::{
    big_add, big_bits, big_eq, big_from_u64, big_lt, big_mod, big_mul, big_shl, big_shr, big_sqrt,
    big_sub, big_nat,
};
use crate::common::{is_bit_set, trailing_zeros};
use crate::jacobi::{jacobi, jacobi_spec};

verus! {

/// How the search for the Lucas parameter `P` ends.
pub enum LucasSetup {
    /// The first `P` whose discriminant `P^2 - 4` has Jacobi symbol -1.
    Chosen(u64),
    /// The search itself given the answer: `P^2 - 4` shares a factor
    /// with `n` (then `n` is prime only if it equals `P + 2`), or `n` was
    /// found to be a perfect square.
    Decided(bool),
    /// No parameter up to 10000 qualified; believed impossible.
    Exhausted,
}

/// The parameter search from `p` upward: report the first `P` with
/// `(P^2 - 4 / n) = -1`; a symbol of 0 settles the answer (the shared
/// prime factor must be `P + 2`, because the search ascends from `P - 2 = 1`);
/// at `P = 40` a perfect square is rejected outright, since no
/// discriminant is a non-residue for a square.
pub open spec fn lucas_setup(n: nat, p: u64) -> LucasSetup
    recommends
        n % 2 == 1,
        n >= 3,
        3 <= p,
    decreases 10001 - p,
{
    if p > 10000 {
        LucasSetup::Exhausted
    } else if jacobi_spec((p * p - 4) as nat, n) == -1 {
        LucasSetup::Chosen(p)
    } else if jacobi_spec((p * p - 4) as nat, n) == 0 {
        LucasSetup::Decided(n == p + 2)
    } else if p == 40 && is_square(n) {
        LucasSetup::Decided(false)
    } else {
        lucas_setup(n, (p + 1) as u64)
    }
}

/// `V_k mod n` for the Lucas sequence with parameters `(P, 1)` — that is,
/// `V_0 = 2`, `V_1 = P`, `V_k = P V_{k-1} - V_{k-2}` — written through the
/// subscript-doubling rules `V_{2k} = V_k^2 - 2` and
/// `V_{2k+1} = V_k V_{k+1} - P`, with `n` added before each subtraction so
/// that every intermediate value stays non-negative.
/// `lemma_vmod_matches_lucas_v` proves this form equal to the defining
/// recurrence `lucas_v`, reduced mod `n`.
pub open spec fn vmod(n: nat, p: u64, k: nat) -> nat
    recommends
        n >= 3,
    decreases k,
{
    if k == 0 {
        2nat % n
    } else if k == 1 {
        (p as nat) % n
    } else if k % 2 == 0 {
        ((vmod(n, p, k / 2) * vmod(n, p, k / 2) + n - 2) as nat) % n
    } else {
        ((vmod(n, p, ((k - 1) as nat) / 2) * vmod(n, p, ((k - 1) as nat) / 2 + 1) + n - ((
        p as nat) % n)) as nat) % n
    }
}

/// The Lucas V sequence with parameters `(P, 1)` itself: `V_0 = 2`,
/// `V_1 = P`, `V_k = P V_{k-1} - V_{k-2}`.
pub open spec fn lucas_v(p: int, k: nat) -> int
    decreases k,
{
    if k == 0 {
        2
    } else if k == 1 {
        p
    } else {
        p * lucas_v(p, (k - 1) as nat) - lucas_v(p, (k - 2) as nat)
    }
}

/// The addition formula `V_{j+k} = V_j V_k - V_{k-j}` for `j <= k`
/// (`Q = 1`), by induction on `j` from the defining recurrence.
proof fn lemma_lucas_v_addition(p: int, j: nat, k: nat)
    requires
        j <= k,
    ensures
        lucas_v(p, j + k) == lucas_v(p, j) * lucas_v(p, k) - lucas_v(p, (k - j) as nat),
    decreases j,
{
    if j == 0 {
        assert(lucas_v(p, 0) * lucas_v(p, k) == 2 * lucas_v(p, k)) by (nonlinear_arith)
            requires
                lucas_v(p, 0) == 2,
        ;
    } else if j == 1 {
        assert(lucas_v(p, k + 1) == p * lucas_v(p, k) - lucas_v(p, (k - 1) as nat));
    } else {
        lemma_lucas_v_addition(p, (j - 1) as nat, k);
        lemma_lucas_v_addition(p, (j - 2) as nat, k);
        let w = lucas_v(p, j + k);
        let a1 = lucas_v(p, (j + k - 1) as nat);
        let a2 = lucas_v(p, (j + k - 2) as nat);
        let b1 = lucas_v(p, (j - 1) as nat);
        let b2 = lucas_v(p, (j - 2) as nat);
        let c = lucas_v(p, k);
        let d0 = lucas_v(p, (k - j) as nat);
        let d1 = lucas_v(p, (k - j + 1) as nat);
        let d2 = lucas_v(p, (k - j + 2) as nat);
        assert(w == p * a1 - a2);
        assert(a1 == b1 * c - d1);
        assert(a2 == b2 * c - d2);
        assert(lucas_v(p, j) == p * b1 - b2);
        assert(d2 == p * d1 - d0);
        assert(w == (p * b1 - b2) * c - d0) by (nonlinear_arith)
            requires
                w == p * a1 - a2,
                a1 == b1 * c - d1,
                a2 == b2 * c - d2,
                d2 == p * d1 - d0,
        ;
    }
}

/// Doubling the subscript: `V_{2k} = V_k^2 - 2` and
/// `V_{2k+1} = V_k V_{k+1} - P`, as instances of the addition formula.
proof fn lemma_lucas_v_doubling(p: int, k: nat)
    ensures
        lucas_v(p, 2 * k) == lucas_v(p, k) * lucas_v(p, k) - 2,
        lucas_v(p, 2 * k + 1) == lucas_v(p, k) * lucas_v(p, k + 1) - p,
{
    lemma_lucas_v_addition(p, k, k);
    lemma_lucas_v_addition(p, k, k + 1);
    assert(lucas_v(p, k + (k + 1)) == lucas_v(p, k) * lucas_v(p, k + 1) - lucas_v(p, 1));
}

/// The doubling rules `vmod` is written with compute the defining
/// recurrence: `vmod(n, p, k)` is the true `V_k` reduced mod `n`.
pub proof fn lemma_vmod_matches_lucas_v(n: nat, p: u64, k: nat)
    requires
        n >= 3,
    ensures
        vmod(n, p, k) as int == lucas_v(p as int, k) % (n as int),
    decreases k,
{
    let ni = n as int;
    let pi = p as int;
    if k == 0 {
        // both sides are 2 % n
    } else if k == 1 {
        // both sides are p % n
    } else if k % 2 == 0 {
        let h = k / 2;
        lemma_vmod_matches_lucas_v(n, p, h);
        lemma_lucas_v_doubling(pi, h);
        vstd::arithmetic::div_mod::lemma_fundamental_div_mod(k as int, 2);
        vstd::arithmetic::div_mod::lemma_mod_multiples_basic(h as int, 2);
        assert(k == 2 * h);
        let x = vmod(n, p, h) as int;
        let v = lucas_v(pi, h);
        assert(vmod(n, p, k) as int == (x * x + ni - 2) % ni);
        assert((x * x + ni - 2) % ni == (x * x - 2) % ni) by {
            vstd::arithmetic::div_mod::lemma_mod_multiples_vanish(1, x * x - 2, ni);
        };
        assert((x * x) % ni == (v * v) % ni) by {
            vstd::arithmetic::div_mod::lemma_mul_mod_noop(v, v, ni);
            assert(x == v % ni);
        };
        vstd::arithmetic::div_mod::lemma_sub_mod_noop(x * x, 2, ni);
        vstd::arithmetic::div_mod::lemma_sub_mod_noop(v * v, 2, ni);
        assert((x * x - 2) % ni == (v * v - 2) % ni);
    } else {
        let h = (k - 1) as nat / 2;
        lemma_vmod_matches_lucas_v(n, p, h);
        lemma_vmod_matches_lucas_v(n, p, h + 1);
        lemma_lucas_v_doubling(pi, h);
        vstd::arithmetic::div_mod::lemma_fundamental_div_mod(k as int, 2);
        vstd::arithmetic::div_mod::lemma_div_multiples_vanish(k as int / 2, 2);
        assert(k == 2 * (k as int / 2) + 1);
        assert(h == k as int / 2);
        assert(k == 2 * h + 1);
        let x = vmod(n, p, h) as int;
        let y = vmod(n, p, h + 1) as int;
        let v = lucas_v(pi, h);
        let w = lucas_v(pi, h + 1);
        let pr = pi % ni;
        assert(vmod(n, p, k) as int == (x * y + ni - pr) % ni);
        assert((x * y + ni - pr) % ni == (x * y - pr) % ni) by {
            vstd::arithmetic::div_mod::lemma_mod_multiples_vanish(1, x * y - pr, ni);
        };
        assert((x * y) % ni == (v * w) % ni) by {
            vstd::arithmetic::div_mod::lemma_mul_mod_noop(v, w, ni);
            assert(x == v % ni && y == w % ni);
        };
        vstd::arithmetic::div_mod::lemma_sub_mod_noop(x * y, pr, ni);
        vstd::arithmetic::div_mod::lemma_sub_mod_noop(v * w, pi, ni);
        assert(pr % ni == pi % ni) by {
            vstd::arithmetic::div_mod::lemma_mod_twice(pi, ni);
        };
        assert((x * y - pr) % ni == (v * w - pi) % ni);
    }
}

/// The `V_s = ±2` branch of the acceptance: `V_s` is 2 or `n - 2`, and
/// `U_s = 0`, expressed without U-values as `P V_s = 2 V_{s+1} (mod n)`.
pub open spec fn lucas_vs_cond(n: nat, p: u64) -> bool {
    let s = odd_part((n + 1) as nat);
    (vmod(n, p, s) == 2 || vmod(n, p, s) == (n - 2) as nat) && (((p as nat) % n) * vmod(n, p, s))
        % n == (2 * vmod(n, p, s + 1)) % n
}

/// The almost extra strong acceptance at parameter `p`: with
/// `n + 1 = 2^r s` and `s` odd, either the `V_s = ±2` branch holds, or
/// some `V_{2^t s}` with `t < r - 1` vanishes mod `n`.
pub open spec fn lucas_accepts(n: nat, p: u64) -> bool {
    lucas_vs_cond(n, p) || (exists|t: nat|
        t < factor2((n + 1) as nat) - 1 && #[trigger] vmod(
            n,
            p,
            pow2(t) * odd_part((n + 1) as nat),
        ) == 0)
}

/// What the Lucas test decides on odd `n >= 3`: the parameter search's own
/// answer where it has one, the acceptance test at the chosen parameter
/// otherwise, and nothing where the search is exhausted.
pub open spec fn lucas_decision(n: nat) -> Option<bool> {
    match lucas_setup(n, 3) {
        LucasSetup::Chosen(p) => Some(lucas_accepts(n, p)),
        LucasSetup::Decided(b) => Some(b),
        LucasSetup::Exhausted => None,
    }
}

/// Unfolds the even doubling rule at subscript `2 kh`.
proof fn lemma_vmod_double(nv: nat, p: u64, kh: nat, k: nat)
    requires
        nv >= 3,
        kh >= 1,
        k == 2 * kh,
    ensures
        vmod(nv, p, k) == ((vmod(nv, p, kh) * vmod(nv, p, kh) + nv - 2) as nat) % nv,
{
    vstd::arithmetic::div_mod::lemma_div_multiples_vanish(kh as int, 2);
    vstd::arithmetic::div_mod::lemma_mod_multiples_basic(kh as int, 2);
    assert(k % 2 == 0 && k / 2 == kh);
}

/// Unfolds the odd doubling rule at subscript `2 kh + 1`; the subscript 1
/// itself folds back to the base value `P mod n`.
proof fn lemma_vmod_double_plus_one(nv: nat, p: u64, kh: nat, k: nat)
    requires
        nv >= 3,
        k == 2 * kh + 1,
    ensures
        vmod(nv, p, k) == ((vmod(nv, p, kh) * vmod(nv, p, kh + 1) + nv - ((p as nat) % nv)) as nat)
            % nv,
{
    let pr = (p as nat) % nv;
    vstd::arithmetic::div_mod::lemma_div_multiples_vanish(kh as int, 2);
    vstd::arithmetic::div_mod::lemma_mod_multiples_vanish(kh as int, 1, 2);
    assert(k % 2 == 1);
    if k == 1 {
        // vmod(0) = 2 and vmod(1) = P mod n: (2 P + n - P) mod n is P mod n
        vstd::arithmetic::div_mod::lemma_small_mod(2, nv);
        assert(vmod(nv, p, 0) == 2);
        assert(vmod(nv, p, 0) * vmod(nv, p, 1) == 2 * vmod(nv, p, 1)) by (nonlinear_arith)
            requires
                vmod(nv, p, 0) == 2,
        ;
        assert(((2 * pr + nv - pr) as nat) % nv == ((pr + nv) as nat) % nv);
        vstd::arithmetic::div_mod::lemma_mod_add_multiples_vanish(pr as int, nv as int);
        vstd::arithmetic::div_mod::lemma_small_mod(pr, nv);
        assert(((pr + nv) as nat) % nv == pr);
    } else {
        assert(k >= 3);
        assert((k - 1) as nat / 2 == kh);
    }
}

/// One step of the most-significant-first scan of the bits of `s`: from
/// `(V_k, V_{k+1})` at the prefix `k` of `s`'s bits, the doubling rules give
/// `(V_{k'}, V_{k'+1})` at `k' = 2k + bit`.
proof fn lemma_scan_step(nv: nat, p: u64, sv: nat, sbits: nat, i: nat, vkv: nat, vk1v: nat, bit: bool)
    requires
        nv >= 3,
        sv >= 1,
        sbits == crate::arith::bit_len(sv),
        i < sbits,
        vkv == vmod(nv, p, sv / pow2(i + 1)),
        vk1v == vmod(nv, p, sv / pow2(i + 1) + 1),
        bit == ((sv / pow2(i)) % 2 == 1),
    ensures
        bit ==> ((vkv * vk1v + nv - ((p as nat) % nv)) as nat) % nv == vmod(nv, p, sv / pow2(i))
            && ((vk1v * vk1v + nv - 2) as nat) % nv == vmod(nv, p, sv / pow2(i) + 1),
        !bit ==> ((vkv * vkv + nv - 2) as nat) % nv == vmod(nv, p, sv / pow2(i)) && ((vkv * vk1v
            + nv - ((p as nat) % nv)) as nat) % nv == vmod(nv, p, sv / pow2(i) + 1),
{
    let k_old = sv / pow2(i + 1);
    let k_new = sv / pow2(i);
    lemma_div_pow2_step(sv, i);
    assert(k_new == 2 * k_old + (if bit {
        1nat
    } else {
        0nat
    }));
    // the prefix read so far is never zero: the top bit of s is set
    crate::arith::lemma_bit_len_bounds(sv);
    lemma_pow2_pos(i);
    vstd::arithmetic::power2::lemma_pow2_subtracts(i, (sbits - 1) as nat);
    vstd::arithmetic::div_mod::lemma_div_is_ordered(
        pow2((sbits - 1) as nat) as int,
        sv as int,
        pow2(i) as int,
    );
    lemma_pow2_pos((sbits - 1 - i) as nat);
    assert(k_new >= 1);
    if bit {
        assert(k_new == 2 * k_old + 1);
        assert(k_new + 1 == 2 * (k_old + 1)) by (nonlinear_arith)
            requires
                k_new == 2 * k_old + 1,
        ;
        lemma_vmod_double_plus_one(nv, p, k_old, k_new);
        lemma_vmod_double(nv, p, k_old + 1, k_new + 1);
    } else {
        assert(k_new == 2 * k_old);
        assert(k_old >= 1) by (nonlinear_arith)
            requires
                k_new == 2 * k_old,
                k_new >= 1,
        ;
        lemma_vmod_double(nv, p, k_old, k_new);
        lemma_vmod_double_plus_one(nv, p, k_old, k_new + 1);
    }
}

/// 2 is a fixed point of the doubling `V = V^2 - 2 (mod n)`: once some
/// `V_{2^t s}` is 2, every later one is 2 as well.
proof fn lemma_two_fixed_point(n: nat, p: u64, s: nat, t: nat, t2: nat)
    requires
        n >= 3,
        s >= 1,
        vmod(n, p, pow2(t) * s) == 2,
        t <= t2,
    ensures
        vmod(n, p, pow2(t2) * s) == 2,
    decreases t2 - t,
{
    if t2 > t {
        lemma_two_fixed_point(n, p, s, t, (t2 - 1) as nat);
        let kh = pow2((t2 - 1) as nat) * s;
        let k = pow2(t2) * s;
        lemma_pow2_pos((t2 - 1) as nat);
        assert(pow2(t2) == 2 * pow2((t2 - 1) as nat)) by {
            lemma_pow2_unfold(t2);
        };
        assert(k == 2 * kh) by {
            vstd::arithmetic::mul::lemma_mul_is_associative(
                2,
                pow2((t2 - 1) as nat) as int,
                s as int,
            );
        };
        assert(kh >= 1) by {
            vstd::arithmetic::mul::lemma_mul_left_inequality(
                pow2((t2 - 1) as nat) as int,
                1,
                s as int,
            );
        };
        lemma_vmod_double(n, p, kh, k);
        assert(vmod(n, p, kh) * vmod(n, p, kh) == 4) by (nonlinear_arith)
            requires
                vmod(n, p, kh) == 2,
        ;
        assert(vmod(n, p, k) == ((n + 2) as nat) % n);
        assert((n + 2) % n == 2) by {
            vstd::arithmetic::div_mod::lemma_mod_add_multiples_vanish(2, n as int);
            vstd::arithmetic::div_mod::lemma_small_mod(2, n);
        };
    }
}

/// The almost extra strong Lucas test for odd `n >= 3`. Returns nothing
/// only if the parameter search is exhausted, which is believed impossible.
#[verifier::rlimit(100)]
pub fn lucas(n: &BigUint) -> (res: Option<bool>)
    requires
        big_nat(*n) % 2 == 1,
        big_nat(*n) >= 3,
    ensures
        res == lucas_decision(big_nat(*n)),
{
    let ghost nv = big_nat(*n);
    // Baillie's method C: find the first P >= 3 with (P^2 - 4 / n) = -1
    let mut p: u64 = 3;
    let mut found = false;
    while !found
        invariant
            3 <= p <= 10000,
            nv == big_nat(*n),
            nv % 2 == 1,
            nv >= 3,
            !found ==> lucas_setup(nv, 3) == lucas_setup(nv, p),
            found ==> lucas_setup(nv, 3) == LucasSetup::Chosen(p),
        decreases 10001 - p + (if found {
            0int
        } else {
            1int
        }),
    {
        proof {
            assert(9 <= p * p && p * p <= 10000 * 10000) by (nonlinear_arith)
                requires
                    3 <= p <= 10000,
            ;
        }
        let d = big_from_u64(p * p - 4);
        let j = match jacobi(&d, n) {
            Some(j) => j,
            None => {
                proof {
                    assert(false);
                }
                return None;
            },
        };
        if j == -1 {
            found = true;
        } else if j == 0 {
            // the shared prime factor of P^2 - 4 = (P - 2)(P + 2) and n is
            // P + 2, so n is prime exactly when it equals P + 2
            let p2 = big_from_u64(p + 2);
            return Some(big_eq(n, &p2));
        } else {
            if p == 40 {
                // the search cannot succeed on a perfect square: check once
                let root = big_sqrt(n);
                let sq = big_mul(&root, &root);
                let ghost rt = big_nat(root);
                if big_eq(&sq, n) {
                    proof {
                        assert(rt * rt == nv);
                    }
                    return Some(false);
                }
                proof {
                    assert forall|m: nat| #[trigger] (m * m) != nv by {
                        if m * m == nv {
                            if m == 0 {
                                vstd::arithmetic::mul::lemma_mul_by_zero_is_zero(0);
                            } else if m <= rt {
                                vstd::arithmetic::mul::lemma_mul_inequality(
                                    m as int,
                                    rt as int,
                                    m as int,
                                );
                                vstd::arithmetic::mul::lemma_mul_left_inequality(
                                    rt as int,
                                    m as int,
                                    rt as int,
                                );
                                assert(m * m <= rt * rt);
                            } else {
                                vstd::arithmetic::mul::lemma_mul_inequality(
                                    rt as int + 1,
                                    m as int,
                                    rt as int + 1,
                                );
                                vstd::arithmetic::mul::lemma_mul_left_inequality(
                                    m as int,
                                    rt as int + 1,
                                    m as int,
                                );
                                assert((rt + 1) * (rt + 1) <= m * m);
                            }
                        }
                    };
                    assert(!is_square(nv));
                }
            }
            if p == 10000 {
                // the next parameter would exceed the search bound
                proof {
                    assert(lucas_setup(nv, 10001u64) == LucasSetup::Exhausted);
                    assert(lucas_setup(nv, 3) == LucasSetup::Exhausted);
                }
                return None;
            }
            p = p + 1;
        }
    }
    // n + 1 = 2^r * s with s odd
    let one = big_from_u64(1);
    let two = big_from_u64(2);
    let s_full = big_add(n, &one);
    let r = trailing_zeros(&s_full);
    let s = big_shr(&s_full, r);
    let ghost sv = big_nat(s);
    proof {
        lemma_two_adic_decomposition((nv + 1) as nat);
        lemma_pow2_pos(factor2((nv + 1) as nat));
        vstd::arithmetic::div_mod::lemma_div_multiples_vanish(
            odd_part((nv + 1) as nat) as int,
            pow2(factor2((nv + 1) as nat)) as int,
        );
        assert(sv == odd_part((nv + 1) as nat));
    }
    let nm2 = big_sub(n, &two);
    let p_red = big_mod(&big_from_u64(p), n);
    // scan the bits of s from the most significant down, keeping
    // (vk, vk1) = (V_k, V_{k+1}) mod n for k the prefix of s read so far
    let mut vk = big_from_u64(2);
    let mut vk1 = big_mod(&big_from_u64(p), n);
    let sbits = big_bits(&s);
    let mut i = sbits;
    proof {
        crate::arith::lemma_shift_out(sv, i as nat);
        vstd::arithmetic::div_mod::lemma_small_mod(2, nv);
    }
    while i > 0
        invariant
            0 <= i <= sbits,
            nv == big_nat(*n),
            nv % 2 == 1,
            nv >= 3,
            sv == big_nat(s),
            sv == odd_part((nv + 1) as nat),
            sv >= 1,
            sbits as nat == crate::arith::bit_len(sv),
            big_nat(one) == 1,
            big_nat(two) == 2,
            big_nat(nm2) == nv - 2,
            big_nat(p_red) == (p as nat) % nv,
            big_nat(vk) == vmod(nv, p, sv / pow2(i as nat)),
            big_nat(vk1) == vmod(nv, p, sv / pow2(i as nat) + 1),
            lucas_setup(nv, 3) == LucasSetup::Chosen(p),
        decreases i,
    {
        let ghost vkv = big_nat(vk);
        let ghost vk1v = big_nat(vk1);
        i = i - 1;
        let bit = is_bit_set(&s, i);
        proof {
            lemma_scan_step(nv, p, sv, sbits as nat, i as nat, vkv, vk1v, bit);
        }
        let prod = big_mul(&vk, &vk1);
        let t1 = big_sub(&big_add(&prod, n), &p_red);
        if bit {
            // k' = 2k + 1: V_{k'} = V_k V_{k+1} - P, V_{k'+1} = V_{k+1}^2 - 2
            let sq1 = big_mul(&vk1, &vk1);
            vk = big_mod(&t1, n);
            let t2 = big_add(&sq1, &nm2);
            vk1 = big_mod(&t2, n);
        } else {
            // k' = 2k: V_{k'+1} = V_k V_{k+1} - P, V_{k'} = V_k^2 - 2
            let sq0 = big_mul(&vk, &vk);
            vk1 = big_mod(&t1, n);
            let t2 = big_add(&sq0, &nm2);
            vk = big_mod(&t2, n);
        }
    }
    proof {
        vstd::arithmetic::power2::lemma2_to64();
        vstd::arithmetic::div_mod::lemma_div_basics_1(sv as int);
        assert(sv / pow2(0) == sv);
    }
    // vk = V_s, vk1 = V_{s+1}: first the V_s = ±2 branch
    if big_eq(&vk, &two) || big_eq(&vk, &nm2) {
        let mut t1 = big_mul(&vk, &p_red);
        let mut t2 = big_shl(&vk1, 1);
        proof {
            vstd::arithmetic::power2::lemma2_to64();
        }
        if big_lt(&t1, &t2) {
            core::mem::swap(&mut t1, &mut t2);
        }
        let diff = big_sub(&t1, &t2);
        let m = big_mod(&diff, n);
        let u_zero = big_eq(&m, &big_from_u64(0));
        proof {
            let a = vmod(nv, p, sv) * ((p as nat) % nv);
            let b = vmod(nv, p, sv + 1) * 2;
            if a >= b {
                lemma_mod_diff_zero(a as int, b as int, nv as int);
            } else {
                lemma_mod_diff_zero(b as int, a as int, nv as int);
            }
            assert(u_zero == (a % nv == b % nv));
            vstd::arithmetic::mul::lemma_mul_is_commutative(
                vmod(nv, p, sv) as int,
                ((p as nat) % nv) as int,
            );
            vstd::arithmetic::mul::lemma_mul_is_commutative(vmod(nv, p, sv + 1) as int, 2);
            assert(a == ((p as nat) % nv) * vmod(nv, p, sv) && b == 2 * vmod(nv, p, sv + 1));
        }
        if u_zero {
            return Some(true);
        }
    }
    // then V_{2^t s} = 0 for some t < r - 1
    let ghost rv = factor2((nv + 1) as nat);
    let mut t: u64 = 0;
    proof {
        vstd::arithmetic::power2::lemma2_to64();
        vstd::arithmetic::mul::lemma_mul_basics_3(sv as int);
        assert(pow2(0) * sv == sv);
    }
    while t < r - 1
        invariant
            0 <= t <= r,
            r >= 1,
            r as nat == rv,
            rv == factor2((nv + 1) as nat),
            nv == big_nat(*n),
            nv % 2 == 1,
            nv >= 3,
            sv == odd_part((nv + 1) as nat),
            sv >= 1,
            big_nat(two) == 2,
            big_nat(nm2) == nv - 2,
            big_nat(vk) == vmod(nv, p, pow2(t as nat) * sv),
            !lucas_vs_cond(nv, p),
            forall|t0: nat| t0 < t as nat ==> #[trigger] vmod(nv, p, pow2(t0) * sv) != 0,
            lucas_setup(nv, 3) == LucasSetup::Chosen(p),
        decreases r - t,
    {
        if big_eq(&vk, &big_from_u64(0)) {
            proof {
                assert(vmod(nv, p, pow2(t as nat) * odd_part((nv + 1) as nat)) == 0);
            }
            return Some(true);
        }
        if big_eq(&vk, &two) {
            proof {
                assert forall|t0: nat| t0 < rv - 1 implies #[trigger] vmod(nv, p, pow2(t0) * sv)
                    != 0 by {
                    if t0 >= t as nat {
                        lemma_two_fixed_point(nv, p, sv, t as nat, t0);
                    }
                };
            }
            return Some(false);
        }
        let sq = big_mul(&vk, &vk);
        let t2 = big_add(&sq, &nm2);
        vk = big_mod(&t2, n);
        proof {
            let kh = pow2(t as nat) * sv;
            let k = pow2((t + 1) as nat) * sv;
            lemma_pow2_pos(t as nat);
            assert(pow2((t + 1) as nat) == 2 * pow2(t as nat)) by {
                lemma_pow2_unfold((t + 1) as nat);
            };
            assert(k == 2 * kh) by {
                vstd::arithmetic::mul::lemma_mul_is_associative(
                    2,
                    pow2(t as nat) as int,
                    sv as int,
                );
            };
            assert(kh >= 1) by {
                vstd::arithmetic::mul::lemma_mul_left_inequality(
                    pow2(t as nat) as int,
                    1,
                    sv as int,
                );
            };
            lemma_vmod_double(nv, p, kh, k);
            assert(big_nat(vk) == vmod(nv, p, k));
        }
        t = t + 1;
    }
    proof {
        assert(!lucas_accepts(nv, p));
    }
    Some(false)
}

} // verus!
