//! Generation round-trips: generated primes and safe primes have the
//! requested bit length and pass the checks.

use glass_pumpkin::common::{
    check_candidate, check_safe_candidate, gen_prime, gen_safe_prime, is_prime,
    is_safe_prime_baillie_psw,
};
use glass_pumpkin::error::Error;
use glass_pumpkin::{prime, safe_prime};
use num_bigint::BigUint;
use num_traits::Num;

#[test]
fn gen_safe_prime_tests() {
    match gen_prime(16) {
        Ok(_) => panic!("No primes allowed under 16 bits"),
        Err(e) => match e {
            Error::BitLength(l) => assert_eq!(l, 16),
            _ => panic!("Unexpected error"),
        },
    };

    for bits in &[128usize, 256] {
        let n = gen_safe_prime(*bits).unwrap();
        assert!(is_safe_prime_baillie_psw(&n));
        assert_eq!(n.bits() as usize, *bits);
    }
}

#[test]
fn gen_prime_tests() {
    match gen_prime(16) {
        Ok(_) => panic!("No primes allowed under 16 bits"),
        Err(e) => match e {
            Error::BitLength(l) => assert_eq!(l, 16),
            _ => panic!("Unexpected error"),
        },
    };

    for bits in &[256usize, 512, 1024] {
        let n = gen_prime(*bits).unwrap();
        assert!(is_prime(&n));
        assert_eq!(n.bits() as usize, *bits);
    }
}

#[test]
fn prime_tests() {
    for bits in &[128usize, 256, 512, 1024] {
        let n = prime::new(*bits).unwrap();
        assert!(prime::check(&n));
        assert!(prime::strong_check(&n));
    }
}

#[test]
fn safe_prime_tests() {
    for bits in &[128usize, 256] {
        let n = safe_prime::new(*bits).unwrap();
        assert!(safe_prime::check(&n));
        assert!(safe_prime::strong_check(&n));
    }
}

#[test]
fn safe_prime_half_test() {
    let n = safe_prime::new(256).unwrap();
    assert_eq!(n.bits(), 256);
    assert_eq!(&n % 3u64, 2u64.into());
    assert!(prime::check(&(&n >> 1)));
}

#[test]
fn check_candidate_tests() {
    // below the minimum bit length nothing is accepted
    assert!(check_candidate(BigUint::from(3u64), 16).is_none());

    // a known 128-bit prime handed in as the draw is already shaped and
    // passes every test deterministically
    let p = BigUint::from_str_radix("340282366920938463463374607431768211297", 10).unwrap();
    let accepted = check_candidate(p.clone(), 128).unwrap();
    assert_eq!(accepted, p);

    // the draw 0 is shaped to 2^128 - 1, a multiple of 3: rejected
    assert!(check_candidate(BigUint::from(0u64), 128).is_none());

    // a safe prime passes the safe filter; one not 2 (mod 3) does not
    let n = BigUint::from(36_176_774_435_806_660_919_u128);
    assert!(check_safe_candidate(&n, 65));
    assert!(!check_safe_candidate(&BigUint::from(7u64), 65));
}
