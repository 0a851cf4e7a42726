//! The kernel's building blocks: the witness stream, the Jacobi symbol,
//! the Lucas test, the small-prime sieve and the round-count formula.

use glass_pumpkin::common::required_checks;
use glass_pumpkin::jacobi::jacobi;
use glass_pumpkin::lucas::lucas;
use glass_pumpkin::rand::Randoms;
use glass_pumpkin::table::{is_small_prime, small_primes};
use num_bigint::BigUint;

#[test]
fn generate_amount_test() {
    let amount = 3;
    let mut rands = Randoms::new(BigUint::from(0u64), BigUint::from(1u64), amount);
    let mut generated: Vec<BigUint> = Vec::new();
    while let Some(x) = rands.next() {
        generated.push(x);
    }
    assert_eq!(generated.len(), amount);

    let mut rands = Randoms::new(BigUint::from(0u64), BigUint::from(1u64), amount).with_appended(
        BigUint::from(2u64),
    );
    let mut generated: Vec<BigUint> = Vec::new();
    while let Some(x) = rands.next() {
        generated.push(x);
    }
    assert_eq!(generated.len(), amount);
}

/// The stream draws inside its bounds, and the appended value takes the
/// final slot only.
#[test]
fn stream_bounds_test() {
    let mut rands = Randoms::new(BigUint::from(5u64), BigUint::from(9u64), 10).with_appended(
        BigUint::from(2u64),
    );
    let mut seen: Vec<BigUint> = Vec::new();
    while let Some(x) = rands.next() {
        seen.push(x);
    }
    assert_eq!(seen.len(), 10);
    for x in &seen[..9] {
        assert!(*x >= BigUint::from(5u64) && *x < BigUint::from(9u64));
    }
    assert_eq!(seen[9], BigUint::from(2u64));
}

/// The symbol matches Euler's criterion `(a/p) = a^((p-1)/2) mod p` for
/// small odd primes, and an even second argument is refused.
#[test]
fn jacobi_tests() {
    assert_eq!(jacobi(&BigUint::from(5u64), &BigUint::from(4u64)), None);
    assert_eq!(jacobi(&BigUint::from(0u64), &BigUint::from(9u64)), Some(0));
    assert_eq!(jacobi(&BigUint::from(1u64), &BigUint::from(9u64)), Some(1));
    assert_eq!(jacobi(&BigUint::from(1u64), &BigUint::from(1u64)), Some(1));
    for p in [3u64, 5, 7, 11, 13, 17, 19, 23] {
        for a in 0..p {
            // a^((p-1)/2) mod p, by squaring
            let mut e = (p - 1) / 2;
            let mut b = a % p;
            let mut acc = 1u64;
            while e > 0 {
                if e & 1 == 1 {
                    acc = acc * b % p;
                }
                b = b * b % p;
                e >>= 1;
            }
            let expected: i32 = if acc == 0 {
                0
            } else if acc == 1 {
                1
            } else {
                -1
            };
            assert_eq!(
                jacobi(&BigUint::from(a), &BigUint::from(p)),
                Some(expected),
                "jacobi({}, {})",
                a,
                p
            );
        }
    }
}

/// Perfect squares are rejected without looping; small primes with no
/// early parameter decision are accepted.
#[test]
fn lucas_tests() {
    assert_eq!(lucas(&BigUint::from(9u64)), Some(false));
    assert_eq!(lucas(&BigUint::from(25u64)), Some(false));
    assert_eq!(lucas(&BigUint::from(49u64)), Some(false));
    assert_eq!(lucas(&BigUint::from(81u64)), Some(false));
    assert_eq!(lucas(&BigUint::from(3u64)), Some(true));
    assert_eq!(lucas(&BigUint::from(101u64)), Some(true));
    assert_eq!(lucas(&BigUint::from(10007u64)), Some(true));
    assert_eq!(lucas(&BigUint::from(18_088_387_217_903_330_459_u64)), Some(true));
    // 3 * 5 = 15: composite caught by the parameter search itself
    assert_eq!(lucas(&BigUint::from(15u64)), Some(false));
    // 43^2 = 1849 reaches the square check at parameter 40
    assert_eq!(lucas(&BigUint::from(1849u64)), Some(false));
}

/// The sieve agrees with a naive divisor scan up to 100000.
#[test]
fn small_prime_sieve_test() {
    let bound = 100_000u64;
    let mut sieve = vec![true; bound as usize];
    sieve[0] = false;
    sieve[1] = false;
    for i in 2..bound as usize {
        if sieve[i] {
            let mut j = i * i;
            while j < bound as usize {
                sieve[j] = false;
                j += i;
            }
        }
    }
    for i in 0..bound as usize {
        assert_eq!(is_small_prime(i as u64), sieve[i], "differs at {}", i);
    }
}

/// The table holds the 2047 odd primes from 3 up to 17863, in order:
/// together with 2, which the tests handle by parity, these are the first
/// 2048 primes.
#[test]
fn small_prime_table_test() {
    let t = small_primes();
    assert_eq!(t.len(), 2047);
    assert_eq!(t[0], 3);
    assert_eq!(t[2046], 17863);
    for w in t.windows(2) {
        assert!(w[0] < w[1]);
    }
    for p in &t {
        assert!(p % 2 == 1);
        assert!(is_small_prime(*p));
    }
}

/// `required_checks` is `floor(log2(bits)) + 5`.
#[test]
fn required_checks_test() {
    assert_eq!(required_checks(128), 12);
    assert_eq!(required_checks(255), 12);
    assert_eq!(required_checks(256), 13);
    assert_eq!(required_checks(1024), 15);
    assert_eq!(required_checks(2048), 16);
}
