//! The known-order backend: scalars are residues modulo the public prime
//! `Q`, points are elements of the additive residue group modulo `Q` written
//! through the capability interfaces, with multiplication by a scalar as the
//! scalar action.

use vstd::prelude::*;
use vstd::calc;
use vstd::arithmetic::div_mod::{
    lemma_add_mod_noop, lemma_mod_division_less_than_divisor, lemma_mul_mod_noop_general,
    lemma_small_mod, lemma_sub_mod_noop,
};
use vstd::arithmetic::mul::{lemma_mul_is_associative, lemma_mul_is_distributive_add_other_way};
use crate::{ArithmeticError, ErrorKey};
use crate::arith::{gcd, mod_add, mod_inverse, mod_mul, mod_sub, sample_below, wipe_u64};
use crate::encoding::{be_u64_of, be_bytes_to_value, u64_be_bytes, value_to_be_bytes};
use crate::sigma_dlog_eq::{challenge_of, transcript_wf, verification_equations, DLogEqProof};
use crate::traits::{DlogGroup, ECPoint, ECScalar};

verus! {

/// The public prime order of the group: the Mersenne prime `2^61 - 1`.
pub const Q: u64 = 2305843009213693951;

/// A point of the known-order group.
#[derive(Clone, Copy, Debug, PartialEq, Eq, Structural)]
pub struct Zqg {
    g: u64,
}

/// A scalar of the known-order group.
#[derive(Clone, Copy, Debug, PartialEq, Eq, Structural)]
pub struct Zqf {
    f: u64,
}

impl Zqf {
    /// The canonical representative.
    pub closed spec fn spec_value(&self) -> nat {
        self.f as nat
    }

    /// Reduced into the canonical range.
    pub closed spec fn wf(&self) -> bool {
        self.f < Q
    }

    /// A uniformly sampled scalar.
    pub fn new_random() -> (r: Zqf)
        ensures
            r.wf(),
    {
        Zqf { f: sample_below(Q) }
    }

    pub fn zero() -> (r: Zqf)
        ensures
            r.wf(),
            r.spec_value() == 0,
    {
        Zqf { f: 0 }
    }

    pub fn get_element(&self) -> (r: Zqf)
        ensures
            r == *self,
    {
        Zqf { f: self.f }
    }

    pub fn set_element(&mut self, element: Zqf)
        ensures
            *final(self) == element,
    {
        self.f = element.f;
    }

    /// The scalar a given integer reduces to.
    pub fn from(n: u64) -> (r: Zqf)
        ensures
            r.wf(),
            r.spec_value() == (n as nat) % (Q as nat),
    {
        Zqf { f: n % Q }
    }

    pub fn to_big_int(&self) -> (r: u64)
        ensures
            r as nat == self.spec_value(),
    {
        self.f
    }

    /// The public modulus scalars are reduced against.
    pub fn q() -> (r: u64)
        ensures
            r == Q,
    {
        Q
    }

    pub fn add(&self, other: &Zqf) -> (r: Zqf)
        requires
            self.wf(),
            other.wf(),
        ensures
            r.wf(),
            r.spec_value() == (self.spec_value() + other.spec_value()) % (Q as nat),
    {
        Zqf { f: mod_add(self.f, other.f, Q) }
    }

    pub fn mul(&self, other: &Zqf) -> (r: Zqf)
        requires
            self.wf(),
            other.wf(),
        ensures
            r.wf(),
            r.spec_value() == (self.spec_value() * other.spec_value()) % (Q as nat),
    {
        Zqf { f: mod_mul(self.f, other.f, Q) }
    }

    pub fn sub(&self, other: &Zqf) -> (r: Zqf)
        requires
            self.wf(),
            other.wf(),
        ensures
            r.wf(),
            r.spec_value() as int == (self.spec_value() - other.spec_value()) % (Q as int),
    {
        Zqf { f: mod_sub(self.f, other.f, Q) }
    }

    /// Fails with `NotInvertible` exactly when the scalar shares a factor
    /// with `Q`; for the prime `Q` that is the zero scalar alone.
    pub fn invert(&self) -> (r: Result<Zqf, ArithmeticError>)
        requires
            self.wf(),
        ensures
            r is Ok <==> gcd(self.spec_value(), Q as nat) == 1,
            r matches Ok(x) ==> x.wf() && (self.spec_value() * x.spec_value()) % (Q as nat)
                == 1,
    {
        match mod_inverse(self.f, Q) {
            Ok(x) => Ok(Zqf { f: x }),
            Err(e) => Err(e),
        }
    }

    /// Overwrite the residue with zero; for scalars that held secret
    /// material.
    pub fn zeroize(&mut self)
        ensures
            final(self).wf(),
            final(self).spec_value() == 0,
    {
        wipe_u64(&mut self.f);
    }
}

impl Zqg {
    /// The canonical integer encoding.
    pub closed spec fn spec_value(&self) -> nat {
        self.g as nat
    }

    /// Reduced into the canonical range.
    pub closed spec fn wf(&self) -> bool {
        self.g < Q
    }

    /// The public modulus of the group.
    pub fn q() -> (r: u64)
        ensures
            r == Q,
    {
        Q
    }

    /// The fixed public base point.
    pub fn generator() -> (r: Zqg)
        ensures
            r.wf(),
            r.spec_value() == 1,
    {
        Zqg { g: 1 }
    }

    /// A second, fixed base point for the proof layer — provably the 13th
    /// multiple of the generator.  In this residue backend every element is
    /// a computable multiple of the generator, so no verifiably independent
    /// second generator exists: the backend models the algebra the proof
    /// layer needs, it cannot carry the independence assumption that the
    /// proof's soundness would rest on.
    pub fn base_point2() -> (r: Zqg)
        ensures
            r.wf(),
            r.spec_value() == 13,
    {
        Zqg { g: 13 }
    }

    /// The point a given integer reduces to.
    pub fn from(n: u64) -> (r: Zqg)
        ensures
            r.wf(),
            r.spec_value() == (n as nat) % (Q as nat),
    {
        Zqg { g: n % Q }
    }

    pub fn get_element(&self) -> (r: Zqg)
        ensures
            r == *self,
    {
        Zqg { g: self.g }
    }

    pub fn x_coor(&self) -> (r: Option<u64>)
        ensures
            r matches Some(v) && v as nat == self.spec_value(),
    {
        Some(self.g)
    }

    pub fn y_coor(&self) -> (r: Option<u64>)
        ensures
            r matches Some(v) && v as nat == self.spec_value(),
    {
        Some(self.g)
    }

    pub fn bytes_compressed_to_big_int(&self) -> (r: u64)
        ensures
            r as nat == self.spec_value(),
    {
        self.g
    }

    /// Decode the canonical eight-byte encoding; anything else — a wrong
    /// length, or a value out of range — fails with `InvalidEncoding`.
    pub fn from_bytes(bytes: &[u8]) -> (r: Result<Zqg, ErrorKey>)
        ensures
            r matches Ok(p) ==> bytes@.len() == 8 && p.wf() && p.spec_value() == be_u64_of(
                bytes@,
            ) as nat && be_u64_of(bytes@) < Q,
            r is Err <==> !(bytes@.len() == 8 && be_u64_of(bytes@) < Q),
            r matches Err(e) ==> e == ErrorKey::InvalidEncoding,
    {
        if bytes.len() != 8 {
            return Err(ErrorKey::InvalidEncoding);
        }
        let v = be_bytes_to_value(bytes);
        if v >= Q {
            return Err(ErrorKey::InvalidEncoding);
        }
        Ok(Zqg { g: v })
    }

    /// The canonical encoding of the point: always exactly eight big-endian
    /// bytes.  The fixed length is deliberate — a minimal-length encoding
    /// cannot reject its own truncations, while here `from_bytes` refuses
    /// any byte string that is not exactly one whole encoding.
    pub fn pk_to_key_slice(&self) -> (r: Vec<u8>)
        ensures
            r@ == u64_be_bytes(self.spec_value() as u64),
    {
        value_to_be_bytes(self.g)
    }

    /// The scalar action: multiplication modulo `Q`.
    pub fn scalar_mul(&self, fe: &Zqf) -> (r: Zqg)
        requires
            self.wf(),
            fe.wf(),
        ensures
            r.wf(),
            r.spec_value() == (self.spec_value() * fe.spec_value()) % (Q as nat),
    {
        Zqg { g: mod_mul(self.g, fe.f, Q) }
    }

    /// The group law: addition modulo `Q`.
    pub fn add_point(&self, other: &Zqg) -> (r: Zqg)
        requires
            self.wf(),
            other.wf(),
        ensures
            r.wf(),
            r.spec_value() == (self.spec_value() + other.spec_value()) % (Q as nat),
    {
        Zqg { g: mod_add(self.g, other.g, Q) }
    }

    pub fn sub_point(&self, other: &Zqg) -> (r: Zqg)
        requires
            self.wf(),
            other.wf(),
        ensures
            r.wf(),
            r.spec_value() as int == (self.spec_value() - other.spec_value()) % (Q as int),
    {
        Zqg { g: mod_sub(self.g, other.g, Q) }
    }

    /// Overwrite the point with the fixed public generator.
    pub fn zeroize(&mut self)
        ensures
            final(self).wf(),
            final(self).spec_value() == 1,
    {
        wipe_u64(&mut self.g);
        self.g = 1;
    }
}

/// The scalar action distributes over the group law: acting with `a` and
/// with `b` and combining the results is acting with `a + b mod Q`.
pub proof fn lemma_scalar_action_distributes(g: Zqg, a: Zqf, b: Zqf)
    requires
        g.wf(),
        a.wf(),
        b.wf(),
    ensures
        ((g.spec_value() * a.spec_value()) % (Q as nat) + (g.spec_value() * b.spec_value()) % (
        Q as nat)) % (Q as nat) == (g.spec_value() * ((a.spec_value() + b.spec_value()) % (
        Q as nat))) % (Q as nat),
{
    g.lemma_smul_compose(a.spec_value(), b.spec_value());
    g.lemma_smul_homomorphic(a.spec_value(), b.spec_value());
}

/// At a fixed transcript whose first generator is a unit of the field, the
/// response is bound: two transcripts equal in everything but the response
/// cannot both satisfy the verification equations.  In particular a proof
/// whose response was tampered with — say, incremented by one — is
/// rejected deterministically, whatever the challenge hashed to.
pub proof fn lemma_response_binding(pf1: DLogEqProof<Zqg>, pf2: DLogEqProof<Zqg>)
    requires
        transcript_wf(pf1),
        transcript_wf(pf2),
        pf1.generator == pf2.generator,
        pf1.pk == pf2.pk,
        pf1.pk_t_rand_commitment == pf2.pk_t_rand_commitment,
        gcd(pf1.generator.0.spec_value(), Q as nat) == 1,
        verification_equations(pf1),
        verification_equations(pf2),
    ensures
        pf1.challenge_response.s_value() == pf2.challenge_response.s_value(),
{
    let qn = Q as nat;
    let qi = Q as int;
    let g = pf1.generator.0.spec_value();
    let z1 = pf1.challenge_response.s_value();
    let z2 = pf2.challenge_response.s_value();
    let c = challenge_of(pf1);
    assert(challenge_of(pf2) == c);
    let w = <Zqg as ECPoint>::smul_spec(qn, pf1.pk.0.p_value(), c);
    let u1 = <Zqg as ECPoint>::smul_spec(qn, g, z1);
    let u2 = <Zqg as ECPoint>::smul_spec(qn, g, z2);
    assert(u1 < qn && u2 < qn && w < qn) by {
        lemma_mod_division_less_than_divisor((g * z1) as int, qi);
        lemma_mod_division_less_than_divisor((g * z2) as int, qi);
        lemma_mod_division_less_than_divisor((pf1.pk.0.p_value() * c) as int, qi);
    }
    assert((u1 + w) % qn == (u2 + w) % qn);
    assert(u1 == u2) by {
        lemma_sub_mod_noop((u1 + w) as int, w as int, qi);
        lemma_sub_mod_noop((u2 + w) as int, w as int, qi);
        lemma_small_mod(w, qn);
        lemma_small_mod(u1, qn);
        lemma_small_mod(u2, qn);
    }
    crate::arith::lemma_mod_mul_cancel(g, z1, z2, qn);
    pf1.challenge_response.lemma_s_wf();
    pf2.challenge_response.lemma_s_wf();
    lemma_small_mod(z1, qn);
    lemma_small_mod(z2, qn);
}

/// The encoding round trip: the canonical bytes of a valid point decode to
/// the very same point.
pub proof fn lemma_point_encoding_roundtrip(p: Zqg)
    requires
        p.wf(),
    ensures
        u64_be_bytes(p.spec_value() as u64).len() == 8,
        be_u64_of(u64_be_bytes(p.spec_value() as u64)) as nat == p.spec_value(),
        be_u64_of(u64_be_bytes(p.spec_value() as u64)) < Q,
{
    crate::encoding::lemma_be_roundtrip(p.spec_value() as u64);
}

impl ECScalar for Zqf {
    open spec fn s_value(&self) -> nat {
        self.spec_value()
    }

    open spec fn s_order(&self) -> nat {
        Q as nat
    }

    open spec fn s_public_order(&self) -> nat {
        Q as nat
    }

    open spec fn s_wf(&self) -> bool {
        self.wf()
    }

    proof fn lemma_s_wf(&self) {
    }

    fn random(&self) -> (r: Self) {
        Zqf::new_random()
    }

    fn from_integer(&self, n: u64) -> (r: Self) {
        Zqf::from(n)
    }

    fn to_integer(&self) -> (r: u64) {
        self.to_big_int()
    }

    fn order(&self) -> (r: u64) {
        Q
    }

    fn add(&self, other: &Self) -> (r: Self) {
        Zqf::add(self, other)
    }

    fn mul(&self, other: &Self) -> (r: Self) {
        Zqf::mul(self, other)
    }

    fn sub(&self, other: &Self) -> (r: Self) {
        Zqf::sub(self, other)
    }

    fn invert(&self) -> (r: Result<Self, ArithmeticError>) {
        Zqf::invert(self)
    }

    fn eq_scalar(&self, other: &Self) -> (r: bool) {
        self.f == other.f
    }

    fn wipe(&mut self) {
        Zqf::zeroize(self);
    }
}

impl ECPoint for Zqg {
    type Scalar = Zqf;

    open spec fn p_value(&self) -> nat {
        self.spec_value()
    }

    open spec fn group_modulus(&self) -> nat {
        Q as nat
    }

    open spec fn p_wf(&self) -> bool {
        self.wf()
    }

    open spec fn smul_spec(gm: nat, p: nat, s: nat) -> nat {
        (p * s) % gm
    }

    open spec fn padd_spec(gm: nat, p: nat, q: nat) -> nat {
        (p + q) % gm
    }

    proof fn lemma_p_wf(&self) {
    }

    fn scalar_mul(&self, s: &Self::Scalar) -> (r: Self) {
        Zqg::scalar_mul(self, s)
    }

    fn add_point(&self, other: &Self) -> (r: Self) {
        Zqg::add_point(self, other)
    }

    fn bytes_compressed_to_big_int(&self) -> (r: u64) {
        Zqg::bytes_compressed_to_big_int(self)
    }

    fn eq_point(&self, other: &Self) -> (r: bool) {
        self.g == other.g
    }

    fn clone_point(&self) -> (r: Self) {
        Zqg { g: self.g }
    }
}

impl DlogGroup for Zqg {
    open spec fn scalar_order_of(gm: nat) -> nat {
        gm
    }

    proof fn lemma_scalar_order_of_bounds(gm: nat) {
    }

    proof fn lemma_smul_compose(&self, a: nat, b: nat) {
        let q = Q as int;
        let p = self.spec_value() as int;
        let ai = a as int;
        let bi = b as int;
        calc! {
            (==)
            (((p * ai) % q) * bi) % q; {
                lemma_mul_mod_noop_general(p * ai, bi, q);
            }
            ((p * ai) * bi) % q; {
                lemma_mul_is_associative(p, ai, bi);
            }
            (p * (ai * bi)) % q; {
                lemma_mul_mod_noop_general(p, ai * bi, q);
            }
            (p * ((ai * bi) % q)) % q;
        }
    }

    proof fn lemma_smul_homomorphic(&self, a: nat, b: nat) {
        let q = Q as int;
        let p = self.spec_value() as int;
        let ai = a as int;
        let bi = b as int;
        calc! {
            (==)
            ((p * ai) % q + (p * bi) % q) % q; {
                lemma_add_mod_noop(p * ai, p * bi, q);
            }
            (p * ai + p * bi) % q; {
                lemma_mul_is_distributive_add_other_way(p, ai, bi);
                assert((ai + bi) * p == p * (ai + bi));
            }
            (p * (ai + bi)) % q; {
                lemma_mul_mod_noop_general(p, ai + bi, q);
            }
            (p * ((ai + bi) % q)) % q;
        }
    }
}

} // verus!
