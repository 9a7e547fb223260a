//! A trapdoor (RSA-style) cryptographic accumulator.
//!
//! An accumulator is a compact value standing for a set of byte-string
//! elements.  The manager holds a secret group order (the trapdoor) derived
//! from two safe primes; with it, arbitrary roots can be taken in the ring
//! mod `n`, which yields per-element membership witnesses.  The big-integer
//! arithmetic comes from `crypto_bigint` and safe-prime generation from
//! `crypto_primes`; everything layered on top of them — the trapdoor setup,
//! the element-to-exponent mapping, the square-and-multiply exponentiation
//! engine, the accumulator operations and the extended-Euclid utility — is
//! verified here.

use vstd::prelude::*;

pub mod arith;
pub mod bigint;
pub mod cache;
pub mod bezout;
pub mod accumulator;

verus! {

/// Failures reported by the accumulator engine.
#[derive(Clone, Copy, Debug, PartialEq, Eq, Structural)]
pub enum AccumulatorError {
    /// Safe-prime generation handed back a prime whose companion factor is
    /// not itself prime, or whose reconstruction disagrees with the prime.
    SetupError,
    /// The element's exponent shares a factor with the secret group order,
    /// so it has no modular inverse there.
    NotInvertible,
    /// The extended-Euclid coefficients fail the Bezout identity check.
    BezoutVerificationFailed,
}

} // verus!
