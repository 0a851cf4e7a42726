//! Primality checks on known primes, composites and safe-prime chains.

use glass_pumpkin::common::{is_prime, is_prime_baillie_psw, is_safe_prime};
use glass_pumpkin::table::small_primes;
use num_bigint::BigUint;
use num_traits::Num;

#[test]
fn is_prime_tests() {
    for p in small_primes() {
        assert!(is_prime(&BigUint::from(p)));
    }

    let mut n = BigUint::from(18_088_387_217_903_330_459_u64);
    assert!(!is_prime(&(n.clone() >> 1)));
    assert!(is_prime_baillie_psw(&n));
    for _ in 0..5 {
        n <<= 1;
        n += 1_u8;
        assert!(is_safe_prime(&n));
        assert!(is_prime_baillie_psw(&n));
    }

    n = BigUint::from_str_radix("33376463607021642560387296949", 10).unwrap();
    assert!(!is_prime(&(n.clone() >> 1)));
    assert!(is_prime_baillie_psw(&n));
    for _ in 0..5 {
        n <<= 1;
        n += 1_u8;
        assert!(is_safe_prime(&n));
    }

    n = BigUint::from_str_radix("170141183460469231731687303717167733089", 10).unwrap();
    assert!(!is_prime(&(n.clone() >> 1)));
    assert!(is_prime_baillie_psw(&n));
    for _ in 0..5 {
        n <<= 1;
        n += 1_u8;
        assert!(is_safe_prime(&n));
    }

    n = BigUint::from_str_radix(
        "113910913923300788319699387848674650656041243163866388656000063249848353322899",
        10,
    )
    .unwrap();
    assert!(!is_prime(&(n.clone() >> 1)));
    assert!(is_prime_baillie_psw(&n));
    for _ in 0..4 {
        n <<= 1;
        n += 1_u8;
        assert!(is_safe_prime(&n));
    }

    n = BigUint::from_str_radix("1675975991242824637446753124775730765934920727574049172215445180465220503759193372100234287270862928461253982273310756356719235351493321243304213304923049", 10).unwrap();
    assert!(!is_prime(&(n.clone() >> 1)));
    assert!(is_prime(&n));
    for _ in 0..4 {
        n <<= 1;
        n += 1_u8;
        assert!(is_safe_prime(&n));
    }
    n = BigUint::from_str_radix("153739637779647327330155094463476939112913405723627932550795546376536722298275674187199768137486929460478138431076223176750734095693166283451594721829574797878338183845296809008576378039501400850628591798770214582527154641716248943964626446190042367043984306973709604255015629102866732543697075866901827761489", 10).unwrap();

    assert!(!is_prime(&(n.clone() >> 1)));
    assert!(is_prime_baillie_psw(&n));
    for _ in 0..3 {
        n <<= 1;
        n += 1_u8;
        assert!(is_safe_prime(&n));
    }
}

#[test]
fn boundary_tests() {
    assert!(!is_prime(&BigUint::from(0u64)));
    assert!(!is_prime(&BigUint::from(1u64)));
    assert!(is_prime(&BigUint::from(2u64)));
    assert!(is_prime(&BigUint::from(3u64)));
    assert!(!is_prime(&BigUint::from(4u64)));
    assert!(is_prime_baillie_psw(&BigUint::from(2u64)));
    assert!(!is_prime_baillie_psw(&BigUint::from(1u64)));
    assert!(!is_safe_prime(&BigUint::from(2u64)));
    assert!(is_safe_prime(&BigUint::from(5u64)));
    assert!(is_safe_prime(&BigUint::from(11u64)));
    assert!(is_safe_prime(&BigUint::from(23u64)));
    // 7 is a mathematical safe prime, but the oracle's 2 (mod 3) filter
    // rejects it, as specified
    assert!(!is_safe_prime(&BigUint::from(7u64)));
    assert!(!is_safe_prime(&BigUint::from(13u64)));
}

/// Every number below the bound is classified exactly as a naive sieve
/// says, by both the plain test and the Baillie-PSW variant.
#[test]
fn exhaustive_small_range_test() {
    let bound = 2000u64;
    let mut sieve = vec![true; bound as usize];
    sieve[0] = false;
    sieve[1] = false;
    for i in 2..bound as usize {
        if sieve[i] {
            let mut j = i * i;
            while j < bound as usize {
                sieve[j] = false;
                j += i;
            }
        }
    }
    for i in 0..bound as usize {
        let n = BigUint::from(i as u64);
        assert_eq!(is_prime(&n), sieve[i], "plain test differs at {}", i);
        assert_eq!(is_prime_baillie_psw(&n), sieve[i], "strong test differs at {}", i);
    }
}

/// A multiple of a table prime is always rejected.
#[test]
fn table_multiple_tests() {
    for (p, k) in [(3u64, 2u64), (3, 5955), (17863, 2), (17863, 17863), (101, 1000)] {
        let n = BigUint::from(p) * BigUint::from(k);
        assert!(!is_prime(&n));
    }
}
