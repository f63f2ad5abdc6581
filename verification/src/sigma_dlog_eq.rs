//! A sigma protocol for knowledge of a scalar `x` with `H0 = G0^x` and
//! `H1 = G1^x` for two independent public generators, Schnorr-style and made
//! non-interactive by the Fiat-Shamir transform: the challenge is the hash
//! of the public transcript `(A0, A1, G0, G1, H0, H1)`, in that fixed order.
//!
//! The protocol is written once over the capability interfaces and the
//! algebraic laws of [`DlogGroup`]; any backend supplying them gets the
//! completeness proof below for free.

use vstd::prelude::*;
use vstd::arithmetic::div_mod::{
    lemma_add_mod_noop, lemma_mod_division_less_than_divisor, lemma_small_mod,
};
use crate::ProofError;
use crate::hashing::{create_hash, hash_words};
use crate::traits::{DlogGroup, ECPoint, ECScalar};

verus! {

/// A non-interactive proof of equality of discrete logarithms: the two
/// generators, the two public keys, the two first-message commitments, and
/// the single response scalar.  The ephemeral secret behind the commitments
/// is wiped before the proof object is returned and appears nowhere in it.
pub struct DLogEqProof<P: ECPoint> {
    pub generator: (P, P),
    pub pk: (P, P),
    pub pk_t_rand_commitment: (P, P),
    pub challenge_response: P::Scalar,
}

/// All fields of the proof belong to one group and are in canonical form.
pub open spec fn transcript_wf<P: DlogGroup>(pf: DLogEqProof<P>) -> bool {
    let gm = pf.generator.0.group_modulus();
    &&& pf.generator.0.p_wf()
    &&& pf.generator.1.p_wf()
    &&& pf.pk.0.p_wf()
    &&& pf.pk.1.p_wf()
    &&& pf.pk_t_rand_commitment.0.p_wf()
    &&& pf.pk_t_rand_commitment.1.p_wf()
    &&& pf.generator.1.group_modulus() == gm
    &&& pf.pk.0.group_modulus() == gm
    &&& pf.pk.1.group_modulus() == gm
    &&& pf.pk_t_rand_commitment.0.group_modulus() == gm
    &&& pf.pk_t_rand_commitment.1.group_modulus() == gm
    &&& pf.challenge_response.s_wf()
    &&& pf.challenge_response.s_order() == P::scalar_order_of(gm)
}

/// The Fiat-Shamir challenge of a transcript: the hash of the non-secret
/// fields, in the fixed order commitments, generators, public keys, reduced
/// into the scalar field.
pub open spec fn challenge_of<P: DlogGroup>(pf: DLogEqProof<P>) -> nat {
    (hash_words(
        seq![
            pf.pk_t_rand_commitment.0.p_value() as u64,
            pf.pk_t_rand_commitment.1.p_value() as u64,
            pf.generator.0.p_value() as u64,
            pf.generator.1.p_value() as u64,
            pf.pk.0.p_value() as u64,
            pf.pk.1.p_value() as u64,
        ],
    ) as nat) % P::scalar_order_of(pf.generator.0.group_modulus())
}

/// The two verification equations: `G0^z * H0^c == A0` and
/// `G1^z * H1^c == A1`, with the challenge recomputed from the transcript.
pub open spec fn verification_equations<P: DlogGroup>(pf: DLogEqProof<P>) -> bool {
    let gm = pf.generator.0.group_modulus();
    let c = challenge_of(pf);
    let z = pf.challenge_response.s_value();
    &&& P::padd_spec(
        gm,
        P::smul_spec(gm, pf.generator.0.p_value(), z),
        P::smul_spec(gm, pf.pk.0.p_value(), c),
    ) == pf.pk_t_rand_commitment.0.p_value()
    &&& P::padd_spec(
        gm,
        P::smul_spec(gm, pf.generator.1.p_value(), z),
        P::smul_spec(gm, pf.pk.1.p_value(), c),
    ) == pf.pk_t_rand_commitment.1.p_value()
}

/// An honestly generated transcript for witness `x` and ephemeral secret
/// `u`: public keys and commitments are the right powers of the generators,
/// and the response is `u - c * x` in the scalar field.
pub open spec fn honest_transcript<P: DlogGroup>(pf: DLogEqProof<P>, x: nat, u: nat) -> bool {
    let gm = pf.generator.0.group_modulus();
    let ord = P::scalar_order_of(gm);
    let c = challenge_of(pf);
    &&& x < ord
    &&& u < ord
    &&& pf.pk.0.p_value() == P::smul_spec(gm, pf.generator.0.p_value(), x)
    &&& pf.pk.1.p_value() == P::smul_spec(gm, pf.generator.1.p_value(), x)
    &&& pf.pk_t_rand_commitment.0.p_value() == P::smul_spec(gm, pf.generator.0.p_value(), u)
    &&& pf.pk_t_rand_commitment.1.p_value() == P::smul_spec(gm, pf.generator.1.p_value(), u)
    &&& pf.challenge_response.s_value() as int == (u - (c * x) % ord) % (ord as int)
}

/// Subtracting a reduced value and adding it back cancels in the residue
/// ring.
proof fn lemma_response_cancels(u: nat, w: nat, m: nat)
    requires
        m >= 1,
        u < m,
        w < m,
    ensures
        ((((u - w) % (m as int)) + w) % (m as int)) == u,
{
    lemma_add_mod_noop(u - w, w as int, m as int);
    lemma_small_mod(w, m);
    lemma_small_mod(u, m);
}

/// Completeness: an honestly generated transcript satisfies both
/// verification equations, whatever the challenge came out as.  Together
/// with the contract of `verify` this says that `verify` accepts every
/// proof that `prove` returns.
pub proof fn lemma_completeness<P: DlogGroup>(pf: DLogEqProof<P>, x: nat, u: nat)
    requires
        transcript_wf(pf),
        honest_transcript(pf, x, u),
    ensures
        verification_equations(pf),
{
    let gm = pf.generator.0.group_modulus();
    let ord = P::scalar_order_of(gm);
    let c = challenge_of(pf);
    let z = pf.challenge_response.s_value();
    pf.generator.0.lemma_p_wf();
    pf.generator.1.lemma_p_wf();
    pf.challenge_response.lemma_s_wf();
    P::lemma_scalar_order_of_bounds(gm);
    assert(c < ord) by {
        lemma_mod_division_less_than_divisor(
            hash_words(
                seq![
                    pf.pk_t_rand_commitment.0.p_value() as u64,
                    pf.pk_t_rand_commitment.1.p_value() as u64,
                    pf.generator.0.p_value() as u64,
                    pf.generator.1.p_value() as u64,
                    pf.pk.0.p_value() as u64,
                    pf.pk.1.p_value() as u64,
                ],
            ) as int,
            ord as int,
        );
    }
    let w = ((c * x) % ord) as nat;
    assert(w < ord) by {
        lemma_mod_division_less_than_divisor((c * x) as int, ord as int);
    }
    assert(c * x == x * c);
    lemma_response_cancels(u, w, ord);
    assert(((z + w) as int) % (ord as int) == u);
    pf.generator.0.lemma_smul_compose(x, c);
    pf.generator.0.lemma_smul_homomorphic(z, w);
    assert(P::smul_spec(gm, pf.pk.0.p_value(), c) == P::smul_spec(gm, pf.generator.0.p_value(), w));
    assert(P::padd_spec(
        gm,
        P::smul_spec(gm, pf.generator.0.p_value(), z),
        P::smul_spec(gm, pf.generator.0.p_value(), w),
    ) == P::smul_spec(gm, pf.generator.0.p_value(), (((z + w) as int) % (ord as int)) as nat));
    pf.generator.1.lemma_smul_compose(x, c);
    pf.generator.1.lemma_smul_homomorphic(z, w);
}

impl<P: DlogGroup> DLogEqProof<P> {
    /// Produce a proof of knowledge of `sk` as the shared discrete
    /// logarithm of `G0^sk` and `G1^sk`.  The ephemeral secret sampled for
    /// the commitments is wiped as soon as the response is computed; the
    /// returned transcript is an honest one for some such ephemeral value,
    /// and — by completeness — satisfies the verification equations, so
    /// `verify` always accepts it.
    pub fn prove(sk: &P::Scalar, g0: &P, g1: &P) -> (pf: DLogEqProof<P>)
        requires
            sk.s_wf(),
            g0.p_wf(),
            g1.p_wf(),
            g1.group_modulus() == g0.group_modulus(),
            sk.s_order() == P::scalar_order_of(g0.group_modulus()),
        ensures
            transcript_wf(pf),
            pf.generator.0 == *g0,
            pf.generator.1 == *g1,
            pf.pk.0.p_value() == P::smul_spec(g0.group_modulus(), g0.p_value(), sk.s_value()),
            pf.pk.1.p_value() == P::smul_spec(g0.group_modulus(), g1.p_value(), sk.s_value()),
            exists|u: nat| #[trigger] honest_transcript(pf, sk.s_value(), u),
            verification_equations(pf),
    {
        let generator_0 = g0.bytes_compressed_to_big_int();
        let generator_1 = g1.bytes_compressed_to_big_int();
        let mut sk_t_rand_commitment = sk.random();
        let ghost u_scalar = sk_t_rand_commitment;
        let ghost u_val = sk_t_rand_commitment.s_value();
        let pk_t_rand_commitment_0 = g0.scalar_mul(&sk_t_rand_commitment);
        let pk_t_rand_commitment_1 = g1.scalar_mul(&sk_t_rand_commitment);
        let pk_0 = g0.scalar_mul(sk);
        let pk_1 = g1.scalar_mul(sk);
        let mut words: Vec<u64> = Vec::new();
        words.push(pk_t_rand_commitment_0.bytes_compressed_to_big_int());
        words.push(pk_t_rand_commitment_1.bytes_compressed_to_big_int());
        words.push(generator_0);
        words.push(generator_1);
        words.push(pk_0.bytes_compressed_to_big_int());
        words.push(pk_1.bytes_compressed_to_big_int());
        let challenge = create_hash(words.as_slice());
        let challenge_fe = sk.from_integer(challenge);
        let challenge_mul_sk = challenge_fe.mul(sk);
        let challenge_response = sk_t_rand_commitment.sub(&challenge_mul_sk);
        sk_t_rand_commitment.wipe();
        let pf = DLogEqProof {
            generator: (g0.clone_point(), g1.clone_point()),
            pk: (pk_0, pk_1),
            pk_t_rand_commitment: (pk_t_rand_commitment_0, pk_t_rand_commitment_1),
            challenge_response,
        };
        proof {
            sk.lemma_s_wf();
            u_scalar.lemma_s_wf();
            assert(words@ =~= seq![
                pf.pk_t_rand_commitment.0.p_value() as u64,
                pf.pk_t_rand_commitment.1.p_value() as u64,
                pf.generator.0.p_value() as u64,
                pf.generator.1.p_value() as u64,
                pf.pk.0.p_value() as u64,
                pf.pk.1.p_value() as u64,
            ]);
            let ord = P::scalar_order_of(pf.generator.0.group_modulus());
            let c = challenge_of(pf);
            assert(sk.s_value() < ord);
            assert(u_val < ord);
            assert(pf.pk.0.p_value() == P::smul_spec(
                pf.generator.0.group_modulus(),
                pf.generator.0.p_value(),
                sk.s_value(),
            ));
            assert(pf.pk_t_rand_commitment.0.p_value() == P::smul_spec(
                pf.generator.0.group_modulus(),
                pf.generator.0.p_value(),
                u_val,
            ));
            assert(c == (challenge as nat) % ord);
            assert(challenge_mul_sk.s_value() == (c * sk.s_value()) % ord);
            assert(pf.challenge_response.s_value() as int == (u_val - (c * sk.s_value()) % ord)
                % (ord as int));
            assert(honest_transcript(pf, sk.s_value(), u_val));
            lemma_completeness(pf, sk.s_value(), u_val);
        }
        pf
    }

    /// Check a proof: recompute the challenge from the non-secret fields
    /// and test both verification equations.  Accepts exactly the
    /// transcripts satisfying them; on rejection it reports only the bare
    /// `ProofError`, never which equation failed.
    pub fn verify(pf: &DLogEqProof<P>) -> (r: Result<(), ProofError>)
        requires
            transcript_wf(*pf),
        ensures
            r is Ok <==> verification_equations(*pf),
            r is Err ==> r == Result::<(), ProofError>::Err(ProofError),
    {
        let mut words: Vec<u64> = Vec::new();
        words.push(pf.pk_t_rand_commitment.0.bytes_compressed_to_big_int());
        words.push(pf.pk_t_rand_commitment.1.bytes_compressed_to_big_int());
        words.push(pf.generator.0.bytes_compressed_to_big_int());
        words.push(pf.generator.1.bytes_compressed_to_big_int());
        words.push(pf.pk.0.bytes_compressed_to_big_int());
        words.push(pf.pk.1.bytes_compressed_to_big_int());
        let challenge = create_hash(words.as_slice());
        proof {
            assert(words@ =~= seq![
                pf.pk_t_rand_commitment.0.p_value() as u64,
                pf.pk_t_rand_commitment.1.p_value() as u64,
                pf.generator.0.p_value() as u64,
                pf.generator.1.p_value() as u64,
                pf.pk.0.p_value() as u64,
                pf.pk.1.p_value() as u64,
            ]);
        }
        let sk_challenge = pf.challenge_response.from_integer(challenge);
        let pk_challenge_0 = pf.pk.0.scalar_mul(&sk_challenge);
        let pk_challenge_1 = pf.pk.1.scalar_mul(&sk_challenge);
        let pk_verifier_0 = pf.generator.0.scalar_mul(&pf.challenge_response).add_point(
            &pk_challenge_0,
        );
        let pk_verifier_1 = pf.generator.1.scalar_mul(&pf.challenge_response).add_point(
            &pk_challenge_1,
        );
        let ok0 = pk_verifier_0.eq_point(&pf.pk_t_rand_commitment.0);
        let ok1 = pk_verifier_1.eq_point(&pf.pk_t_rand_commitment.1);
        if ok0 && ok1 {
            Ok(())
        } else {
            Err(ProofError)
        }
    }
}

} // verus!
