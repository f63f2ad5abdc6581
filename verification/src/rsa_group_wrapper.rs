//! The hidden-order backend behind the capability interfaces: scalars are
//! residues of the group's exponent domain (reduced, as the data model has
//! it, modulo the secret totient), points are residues modulo the public
//! modulus `M`, the group law is multiplication modulo `M` and the scalar
//! action is exponentiation modulo `M`.
//!
//! Nothing on the public side of the interface hands out the group secret:
//! points carry only the public modulus, the `order` accessors report the
//! public modulus and never the totient (which stays with the parameter
//! owner, [`crate::rsa_group::RsaGroupParams`]), and subtraction of points
//! inverts through the extended Euclidean algorithm rather than through a
//! totient-derived exponent.
//!
//! The backend supplies the two capability interfaces but not the
//! [`crate::traits::DlogGroup`] laws: reducing exponents modulo the secret
//! totient is sound only up to Euler's theorem, which is no theorem of this
//! crate.

use vstd::prelude::*;
use vstd::arithmetic::div_mod::{lemma_mul_mod_noop_general, lemma_small_mod};
use vstd::arithmetic::mul::lemma_mul_is_associative;
use crate::{ArithmeticError, ErrorKey};
use crate::arith::{
    gcd, mod_add, mod_inverse, mod_mul, mod_pow, mod_sub, pow_mod, sample_below, wipe_u64,
};
use crate::encoding::{be_u64_of, be_bytes_to_value, u64_be_bytes, value_to_be_bytes};
use crate::rsa_group::RsaGroupParams;
use crate::traits::{ECPoint, ECScalar};

verus! {

/// A point of the hidden-order group: a residue modulo the public modulus.
#[derive(Clone, Copy, Debug, PartialEq, Eq, Structural)]
pub struct Zqg {
    g: u64,
    m: u64,
}

/// A scalar of the hidden-order group: a residue of the exponent domain.
/// The reduction modulus is the group's secret; the value reported by the
/// public `order` accessor is the public modulus.
#[derive(Clone, Copy, Debug, PartialEq, Eq, Structural)]
pub struct Zqf {
    f: u64,
    phi: u64,
    m: u64,
}

impl Zqf {
    pub closed spec fn spec_value(&self) -> nat {
        self.f as nat
    }

    /// The exponent-domain modulus the residue is reduced against.
    pub closed spec fn spec_order(&self) -> nat {
        self.phi as nat
    }

    /// The public constant the interface reports for the scalar domain.
    pub closed spec fn spec_public_order(&self) -> nat {
        self.m as nat
    }

    pub closed spec fn wf(&self) -> bool {
        self.f < self.phi && self.phi >= 2 && self.m >= 2
    }

    /// A uniformly sampled scalar of the given group.
    pub fn new_random(ps: &RsaGroupParams) -> (r: Zqf)
        requires
            ps.wf(),
        ensures
            r.wf(),
            r.spec_order() == ps.phi_val(),
    {
        proof {
            ps.lemma_wf();
        }
        Zqf { f: sample_below(ps.phi()), phi: ps.phi(), m: ps.modulus() }
    }

    pub fn zero(ps: &RsaGroupParams) -> (r: Zqf)
        requires
            ps.wf(),
        ensures
            r.wf(),
            r.spec_order() == ps.phi_val(),
            r.spec_value() == 0,
    {
        proof {
            ps.lemma_wf();
        }
        Zqf { f: 0, phi: ps.phi(), m: ps.modulus() }
    }

    /// The scalar a given integer reduces to in the exponent ring.
    pub fn from(n: u64, ps: &RsaGroupParams) -> (r: Zqf)
        requires
            ps.wf(),
        ensures
            r.wf(),
            r.spec_order() == ps.phi_val(),
            r.spec_value() == (n as nat) % ps.phi_val(),
    {
        proof {
            ps.lemma_wf();
        }
        Zqf { f: n % ps.phi(), phi: ps.phi(), m: ps.modulus() }
    }

    pub fn to_big_int(&self) -> (r: u64)
        ensures
            r as nat == self.spec_value(),
    {
        self.f
    }

    /// The public constant of the scalar domain: the group's public
    /// modulus, never the secret totient.
    pub fn q(ps: &RsaGroupParams) -> (r: u64)
        ensures
            r as nat == ps.modulus_val(),
    {
        ps.modulus()
    }

    pub fn get_element(&self) -> (r: Zqf)
        ensures
            r == *self,
    {
        Zqf { f: self.f, phi: self.phi, m: self.m }
    }

    pub fn set_element(&mut self, element: Zqf)
        ensures
            *final(self) == element,
    {
        self.f = element.f;
        self.phi = element.phi;
        self.m = element.m;
    }

    /// Overwrite the residue with zero; for scalars that held secret
    /// material.
    pub fn zeroize(&mut self)
        ensures
            final(self).spec_value() == 0,
            final(self).spec_order() == old(self).spec_order(),
            final(self).spec_public_order() == old(self).spec_public_order(),
    {
        wipe_u64(&mut self.f);
    }
}

impl Zqg {
    pub closed spec fn spec_value(&self) -> nat {
        self.g as nat
    }

    pub closed spec fn spec_modulus(&self) -> nat {
        self.m as nat
    }

    pub closed spec fn wf(&self) -> bool {
        self.g < self.m && self.m >= 2
    }

    /// The public modulus of the group.
    pub fn q(ps: &RsaGroupParams) -> (r: u64)
        ensures
            r as nat == ps.modulus_val(),
    {
        ps.modulus()
    }

    /// The group's public generator, free of small-order divisors.
    pub fn generator(ps: &RsaGroupParams) -> (r: Zqg)
        requires
            ps.wf(),
        ensures
            r.wf(),
            r.spec_value() == ps.gen_val(),
            r.spec_modulus() == ps.modulus_val(),
    {
        proof {
            ps.lemma_wf();
        }
        Zqg { g: ps.group_generator(), m: ps.modulus() }
    }

    /// A second, fixed public base point.
    pub fn base_point2(ps: &RsaGroupParams) -> (r: Zqg)
        requires
            ps.wf(),
        ensures
            r.wf(),
            r.spec_value() == 1378nat % ps.modulus_val(),
            r.spec_modulus() == ps.modulus_val(),
    {
        proof {
            ps.lemma_wf();
        }
        Zqg { g: 1378 % ps.modulus(), m: ps.modulus() }
    }

    /// The point a given integer reduces to.
    pub fn from(n: u64, ps: &RsaGroupParams) -> (r: Zqg)
        requires
            ps.wf(),
        ensures
            r.wf(),
            r.spec_value() == (n as nat) % ps.modulus_val(),
            r.spec_modulus() == ps.modulus_val(),
    {
        proof {
            ps.lemma_wf();
        }
        Zqg { g: n % ps.modulus(), m: ps.modulus() }
    }

    pub fn get_element(&self) -> (r: Zqg)
        ensures
            r == *self,
    {
        Zqg { g: self.g, m: self.m }
    }

    pub fn x_coor(&self) -> (r: Option<u64>)
        ensures
            r matches Some(v) && v as nat == self.spec_value(),
    {
        Some(self.g)
    }

    pub fn y_coor(&self) -> (r: Option<u64>)
        ensures
            r matches Some(v) && v as nat == self.spec_value(),
    {
        Some(self.g)
    }

    /// Decode the canonical eight-byte encoding against the given group;
    /// anything else fails with `InvalidEncoding`.
    pub fn from_bytes(bytes: &[u8], ps: &RsaGroupParams) -> (r: Result<Zqg, ErrorKey>)
        requires
            ps.wf(),
        ensures
            r matches Ok(p) ==> bytes@.len() == 8 && p.wf() && p.spec_value() == be_u64_of(
                bytes@,
            ) as nat && p.spec_modulus() == ps.modulus_val(),
            r is Err <==> !(bytes@.len() == 8 && (be_u64_of(bytes@) as nat) < ps.modulus_val()),
            r matches Err(e) ==> e == ErrorKey::InvalidEncoding,
    {
        proof {
            ps.lemma_wf();
        }
        if bytes.len() != 8 {
            return Err(ErrorKey::InvalidEncoding);
        }
        let v = be_bytes_to_value(bytes);
        if v >= ps.modulus() {
            return Err(ErrorKey::InvalidEncoding);
        }
        Ok(Zqg { g: v, m: ps.modulus() })
    }

    /// The canonical encoding of the point: always exactly eight big-endian
    /// bytes.  The fixed length is deliberate — a minimal-length encoding
    /// cannot reject its own truncations, while here `from_bytes` refuses
    /// any byte string that is not exactly one whole encoding.
    pub fn pk_to_key_slice(&self) -> (r: Vec<u8>)
        ensures
            r@ == u64_be_bytes(self.spec_value() as u64),
    {
        value_to_be_bytes(self.g)
    }

    /// Subtraction of points: addition with the other point's inverse,
    /// computed by the extended Euclidean algorithm from public data alone.
    /// Fails with `NotInvertible` exactly when the other point shares a
    /// factor with the modulus; such structure is surfaced, never
    /// swallowed.
    pub fn sub_point(&self, other: &Zqg) -> (r: Result<Zqg, ArithmeticError>)
        requires
            self.wf(),
            other.wf(),
            other.spec_modulus() == self.spec_modulus(),
        ensures
            r is Ok <==> gcd(other.spec_value(), self.spec_modulus()) == 1,
            r matches Ok(p) ==> p.wf() && p.spec_modulus() == self.spec_modulus() && (
            p.spec_value() * other.spec_value()) % self.spec_modulus() == self.spec_value(),
    {
        match mod_inverse(other.g, self.m) {
            Ok(x) => {
                let d = mod_mul(self.g, x, self.m);
                proof {
                    let mi = self.m as int;
                    let s = self.g as int;
                    let o = other.g as int;
                    let xi = x as int;
                    assert(o * xi == xi * o) by (nonlinear_arith);
                    assert((xi * o) % mi == 1);
                    lemma_mul_mod_noop_general(s * xi, o, mi);
                    lemma_mul_is_associative(s, xi, o);
                    lemma_mul_mod_noop_general(s, xi * o, mi);
                    assert(s * 1 == s) by (nonlinear_arith);
                    lemma_small_mod(self.g as nat, self.m as nat);
                    assert(((d as int) * o) % mi == s);
                }
                Ok(Zqg { g: d, m: self.m })
            },
            Err(e) => Err(e),
        }
    }

    /// Overwrite the point with the fixed public identity element.
    pub fn zeroize(&mut self)
        ensures
            final(self).spec_value() == 1,
            final(self).spec_modulus() == old(self).spec_modulus(),
    {
        wipe_u64(&mut self.g);
        self.g = 1;
    }
}

/// The homomorphism the hidden-order backend does provide, at integer
/// exponents: acting twice composes to the product of the exponents, and
/// combining two actions under the group law is acting with their sum.
/// What the [`crate::traits::DlogGroup`] laws would need beyond this —
/// reducing exponents modulo the secret totient — is Euler's theorem, which
/// is no theorem of this crate; the backend therefore stops at the
/// capability interfaces.
pub proof fn lemma_scalar_action_integer_exponents(g: Zqg, a: nat, b: nat)
    requires
        g.wf(),
    ensures
        <Zqg as ECPoint>::smul_spec(
            g.spec_modulus(),
            <Zqg as ECPoint>::smul_spec(g.spec_modulus(), g.spec_value(), a),
            b,
        ) == <Zqg as ECPoint>::smul_spec(g.spec_modulus(), g.spec_value(), a * b),
        <Zqg as ECPoint>::padd_spec(
            g.spec_modulus(),
            <Zqg as ECPoint>::smul_spec(g.spec_modulus(), g.spec_value(), a),
            <Zqg as ECPoint>::smul_spec(g.spec_modulus(), g.spec_value(), b),
        ) == <Zqg as ECPoint>::smul_spec(g.spec_modulus(), g.spec_value(), a + b),
{
    crate::arith::lemma_pow_mod_compose(g.spec_value(), a, b, g.spec_modulus());
    crate::arith::lemma_pow_mod_adds(g.spec_value(), a, b, g.spec_modulus());
}

/// The encoding round trip for the hidden-order group: the canonical bytes
/// of a valid point decode to the very same point.
pub proof fn lemma_point_encoding_roundtrip(p: Zqg)
    requires
        p.wf(),
    ensures
        u64_be_bytes(p.spec_value() as u64).len() == 8,
        be_u64_of(u64_be_bytes(p.spec_value() as u64)) as nat == p.spec_value(),
        (be_u64_of(u64_be_bytes(p.spec_value() as u64)) as nat) < p.spec_modulus(),
{
    crate::encoding::lemma_be_roundtrip(p.spec_value() as u64);
}

impl ECScalar for Zqf {
    open spec fn s_value(&self) -> nat {
        self.spec_value()
    }

    open spec fn s_order(&self) -> nat {
        self.spec_order()
    }

    open spec fn s_public_order(&self) -> nat {
        self.spec_public_order()
    }

    open spec fn s_wf(&self) -> bool {
        self.wf()
    }

    proof fn lemma_s_wf(&self) {
    }

    fn random(&self) -> (r: Self) {
        Zqf { f: sample_below(self.phi), phi: self.phi, m: self.m }
    }

    fn from_integer(&self, n: u64) -> (r: Self) {
        Zqf { f: n % self.phi, phi: self.phi, m: self.m }
    }

    fn to_integer(&self) -> (r: u64) {
        self.f
    }

    fn order(&self) -> (r: u64) {
        self.m
    }

    fn add(&self, other: &Self) -> (r: Self) {
        Zqf { f: mod_add(self.f, other.f, self.phi), phi: self.phi, m: self.m }
    }

    fn mul(&self, other: &Self) -> (r: Self) {
        Zqf { f: mod_mul(self.f, other.f, self.phi), phi: self.phi, m: self.m }
    }

    fn sub(&self, other: &Self) -> (r: Self) {
        Zqf { f: mod_sub(self.f, other.f, self.phi), phi: self.phi, m: self.m }
    }

    fn invert(&self) -> (r: Result<Self, ArithmeticError>) {
        match mod_inverse(self.f, self.phi) {
            Ok(x) => Ok(Zqf { f: x, phi: self.phi, m: self.m }),
            Err(e) => Err(e),
        }
    }

    fn eq_scalar(&self, other: &Self) -> (r: bool) {
        self.f == other.f
    }

    fn wipe(&mut self) {
        Zqf::zeroize(self);
    }
}

impl ECPoint for Zqg {
    type Scalar = Zqf;

    open spec fn p_value(&self) -> nat {
        self.spec_value()
    }

    open spec fn group_modulus(&self) -> nat {
        self.spec_modulus()
    }

    open spec fn p_wf(&self) -> bool {
        self.wf()
    }

    open spec fn smul_spec(gm: nat, p: nat, s: nat) -> nat {
        pow_mod(p, s, gm) as nat
    }

    open spec fn padd_spec(gm: nat, p: nat, q: nat) -> nat {
        (p * q) % gm
    }

    proof fn lemma_p_wf(&self) {
    }

    fn scalar_mul(&self, s: &Self::Scalar) -> (r: Self) {
        Zqg { g: mod_pow(self.g, s.f, self.m), m: self.m }
    }

    fn add_point(&self, other: &Self) -> (r: Self) {
        Zqg { g: mod_mul(self.g, other.g, self.m), m: self.m }
    }

    fn bytes_compressed_to_big_int(&self) -> (r: u64) {
        self.g
    }

    fn eq_point(&self, other: &Self) -> (r: bool) {
        self.g == other.g
    }

    fn clone_point(&self) -> (r: Self) {
        Zqg { g: self.g, m: self.m }
    }
}

} // verus!
