//! The errors a generation request can surface.

use vstd::prelude::*;

verus! {

/// Why generating a prime failed. Candidates that merely fail the primality
/// tests are not errors: the generator discards them and draws again.
#[derive(Debug)]
pub enum Error {
    /// The random source failed to deliver a usable candidate: the
    /// generators draw a bounded (astronomically large) number of
    /// candidates to witness termination, and exhausting that budget means
    /// the entropy source is broken. An outright operating-system entropy
    /// failure panics inside the random-number crate instead.
    RngFailure,
    /// The requested bit length is below the 128-bit minimum.
    BitLength(usize),
}

} // verus!
