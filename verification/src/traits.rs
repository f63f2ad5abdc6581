//! The two algebraic capability interfaces every group backend implements,
//! and the extra algebraic laws the proof layer needs.
//!
//! Group parameters are never ambient state: every value carries what its
//! operations need, so any scalar of a group serves as a handle for creating
//! further scalars of the same group.  What the interface hands out at
//! runtime is public data only; a hidden-order group's secret exponent
//! modulus appears in contracts, never in a result.

use vstd::prelude::*;
use crate::ArithmeticError;
use crate::arith::gcd;

verus! {

/// An element of a group's exponent domain: a residue modulo a public
/// modulus, always reduced into the canonical range.
pub trait ECScalar: Sized {
    /// The canonical representative.
    spec fn s_value(&self) -> nat;

    /// The modulus the scalar is reduced against.  For a hidden-order group
    /// this is the group's secret exponent modulus; it appears only in
    /// contracts, never as a runtime value of the interface.
    spec fn s_order(&self) -> nat;

    /// The public constant reported for the scalar domain: the order itself
    /// for a known-order group; for a hidden-order group a group-specific
    /// public modulus, never the secret totient.
    spec fn s_public_order(&self) -> nat;

    /// Reduced into the canonical range, with a usable modulus.
    spec fn s_wf(&self) -> bool;

    proof fn lemma_s_wf(&self)
        requires
            self.s_wf(),
        ensures
            self.s_value() < self.s_order(),
            2 <= self.s_order() <= u64::MAX,
    ;

    /// A fresh uniformly sampled scalar of the same group.
    fn random(&self) -> (r: Self)
        requires
            self.s_wf(),
        ensures
            r.s_wf(),
            r.s_order() == self.s_order(),
    ;

    /// The scalar a given integer reduces to in the same group.
    fn from_integer(&self, n: u64) -> (r: Self)
        requires
            self.s_wf(),
        ensures
            r.s_wf(),
            r.s_order() == self.s_order(),
            r.s_value() == (n as nat) % self.s_order(),
    ;

    /// The canonical representative, as an integer.
    fn to_integer(&self) -> (r: u64)
        requires
            self.s_wf(),
        ensures
            r as nat == self.s_value(),
    ;

    /// The public constant of the scalar domain, as an integer.
    fn order(&self) -> (r: u64)
        requires
            self.s_wf(),
        ensures
            r as nat == self.s_public_order(),
    ;

    fn add(&self, other: &Self) -> (r: Self)
        requires
            self.s_wf(),
            other.s_wf(),
            other.s_order() == self.s_order(),
        ensures
            r.s_wf(),
            r.s_order() == self.s_order(),
            r.s_value() == (self.s_value() + other.s_value()) % self.s_order(),
    ;

    fn mul(&self, other: &Self) -> (r: Self)
        requires
            self.s_wf(),
            other.s_wf(),
            other.s_order() == self.s_order(),
        ensures
            r.s_wf(),
            r.s_order() == self.s_order(),
            r.s_value() == (self.s_value() * other.s_value()) % self.s_order(),
    ;

    fn sub(&self, other: &Self) -> (r: Self)
        requires
            self.s_wf(),
            other.s_wf(),
            other.s_order() == self.s_order(),
        ensures
            r.s_wf(),
            r.s_order() == self.s_order(),
            r.s_value() as int == (self.s_value() - other.s_value()) % (self.s_order() as int),
    ;

    /// Fails with `NotInvertible` exactly when the scalar shares a factor
    /// with the modulus.
    fn invert(&self) -> (r: Result<Self, ArithmeticError>)
        requires
            self.s_wf(),
        ensures
            r is Ok <==> gcd(self.s_value(), self.s_order()) == 1,
            r matches Ok(x) ==> x.s_wf() && x.s_order() == self.s_order() && (self.s_value()
                * x.s_value()) % self.s_order() == 1,
    ;

    fn eq_scalar(&self, other: &Self) -> (r: bool)
        requires
            self.s_wf(),
            other.s_wf(),
            other.s_order() == self.s_order(),
        ensures
            r <==> self.s_value() == other.s_value(),
    ;

    /// Overwrite the residue with zero, through a barrier the optimizer
    /// cannot remove; for scalars that held secret material.
    fn wipe(&mut self)
        requires
            old(self).s_wf(),
        ensures
            final(self).s_wf(),
            final(self).s_order() == old(self).s_order(),
            final(self).s_value() == 0,
    ;
}

/// An element of the group itself: the public side, supporting the scalar
/// action and the group law of a scalar of the same group.
pub trait ECPoint: Sized {
    type Scalar: ECScalar;

    /// The canonical integer encoding of the point.
    spec fn p_value(&self) -> nat;

    /// The modulus of the representation.
    spec fn group_modulus(&self) -> nat;

    /// Reduced into the canonical range, with a usable modulus.
    spec fn p_wf(&self) -> bool;

    /// What the scalar action returns, as a function of the modulus, the
    /// point and the scalar.
    spec fn smul_spec(gm: nat, p: nat, s: nat) -> nat;

    /// What the group law returns.
    spec fn padd_spec(gm: nat, p: nat, q: nat) -> nat;

    proof fn lemma_p_wf(&self)
        requires
            self.p_wf(),
        ensures
            self.p_value() < self.group_modulus(),
            2 <= self.group_modulus() <= u64::MAX,
    ;

    fn scalar_mul(&self, s: &Self::Scalar) -> (r: Self)
        requires
            self.p_wf(),
            s.s_wf(),
        ensures
            r.p_wf(),
            r.group_modulus() == self.group_modulus(),
            r.p_value() == Self::smul_spec(self.group_modulus(), self.p_value(), s.s_value()),
    ;

    fn add_point(&self, other: &Self) -> (r: Self)
        requires
            self.p_wf(),
            other.p_wf(),
            other.group_modulus() == self.group_modulus(),
        ensures
            r.p_wf(),
            r.group_modulus() == self.group_modulus(),
            r.p_value() == Self::padd_spec(
                self.group_modulus(),
                self.p_value(),
                other.p_value(),
            ),
    ;

    /// The canonical compression of the point, suitable for hashing.
    fn bytes_compressed_to_big_int(&self) -> (r: u64)
        requires
            self.p_wf(),
        ensures
            r as nat == self.p_value(),
    ;

    fn eq_point(&self, other: &Self) -> (r: bool)
        requires
            self.p_wf(),
            other.p_wf(),
            other.group_modulus() == self.group_modulus(),
        ensures
            r <==> self.p_value() == other.p_value(),
    ;

    fn clone_point(&self) -> (r: Self)
        ensures
            r == *self,
    ;
}

/// The algebraic laws the sigma protocol rests on: the scalar action
/// composes through scalar multiplication, and it distributes over the
/// group law through scalar addition, with exponent arithmetic taken modulo
/// the scalar order.
///
/// A backend whose scalar order is not provably the order of every group
/// element (a hidden-order group) cannot supply these laws.
pub trait DlogGroup: ECPoint {
    /// The public order of the scalar field acting on a group with the
    /// given modulus.  A function of the public modulus alone, so it is
    /// preserved by every group operation.
    spec fn scalar_order_of(gm: nat) -> nat;

    proof fn lemma_scalar_order_of_bounds(gm: nat)
        requires
            2 <= gm <= u64::MAX,
        ensures
            2 <= Self::scalar_order_of(gm) <= u64::MAX,
    ;

    proof fn lemma_smul_compose(&self, a: nat, b: nat)
        requires
            self.p_wf(),
            a < Self::scalar_order_of(self.group_modulus()),
            b < Self::scalar_order_of(self.group_modulus()),
        ensures
            Self::smul_spec(
                self.group_modulus(),
                Self::smul_spec(self.group_modulus(), self.p_value(), a),
                b,
            ) == Self::smul_spec(
                self.group_modulus(),
                self.p_value(),
                (a * b) % Self::scalar_order_of(self.group_modulus()),
            ),
    ;

    proof fn lemma_smul_homomorphic(&self, a: nat, b: nat)
        requires
            self.p_wf(),
            a < Self::scalar_order_of(self.group_modulus()),
            b < Self::scalar_order_of(self.group_modulus()),
        ensures
            Self::padd_spec(
                self.group_modulus(),
                Self::smul_spec(self.group_modulus(), self.p_value(), a),
                Self::smul_spec(self.group_modulus(), self.p_value(), b),
            ) == Self::smul_spec(
                self.group_modulus(),
                self.p_value(),
                (a + b) % Self::scalar_order_of(self.group_modulus()),
            ),
    ;
}

} // verus!
