//! Generation and testing of large probable primes suitable for cryptographic
//! use, including safe primes (primes `p` for which `(p - 1) / 2` is prime).
//!
//! Candidates are screened by trial division against the small odd primes up
//! to 17863, a Fermat test, and Miller-Rabin rounds; the strong variants add
//! an almost extra strong Lucas test, which together with a base-2
//! Miller-Rabin round forms the Baillie-PSW test.

pub mod arith;
pub mod bigint;
pub mod common;
pub mod error;
pub mod jacobi;
pub mod lucas;
pub mod prime;
pub mod rand;
pub mod safe_prime;
pub mod table;
