//! A uniform algebraic abstraction over discrete-log groups, together with a
//! Fiat-Shamir transformed sigma protocol proving equality of discrete
//! logarithms across two independent generators.
//!
//! Two concrete backends implement the capability interfaces in [`traits`]:
//! a known-order group with a public prime modulus ([`integer_group`]) and an
//! RSA-style hidden-order group ([`rsa_group`] / [`rsa_group_wrapper`]).
//!
//! Representation: every residue is held in a machine word, so moduli are at
//! most 64 bits — the known-order group uses the Mersenne prime `2^61 - 1`,
//! the hidden-order group two safe primes just above `2^31` whose products
//! stay exact in a `u64` — the canonical point encoding is a fixed eight
//! bytes (so a truncated encoding is always rejected), and a Fiat-Shamir
//! challenge is the leading eight digest bytes.  These sizes scale every
//! security parameter down with them; the algebra and the proofs are
//! independent of the word width.

use vstd::prelude::*;

pub mod arith;
pub mod encoding;
pub mod hashing;
pub mod traits;
pub mod integer_group;
pub mod rsa_group;
pub mod rsa_group_wrapper;
pub mod sigma_dlog_eq;

verus! {

/// Failure of a deserialization routine: the byte input does not encode a
/// group element.
#[derive(Clone, Copy, Debug, PartialEq, Eq, Structural)]
pub enum ErrorKey {
    InvalidEncoding,
}

/// Failure of a modular inversion: the operand shares a nontrivial factor
/// with the modulus.
#[derive(Clone, Copy, Debug, PartialEq, Eq, Structural)]
pub enum ArithmeticError {
    NotInvertible,
}

/// Verification of a proof failed.  Deliberately carries no diagnostic
/// detail: a verifier must not reveal which check rejected.
#[derive(Clone, Copy, Debug, PartialEq, Eq, Structural)]
pub struct ProofError;

} // verus!
