use sigma_dlog::integer_group::{Zqf, Zqg};
use sigma_dlog::sigma_dlog_eq::DLogEqProof;
use sigma_dlog::ProofError;

#[test]
fn test_dlog_proof_accepts_honest() {
    let witness = Zqf::new_random();
    let g0 = Zqg::generator();
    let g1 = Zqg::base_point2();
    let dlog_proof = DLogEqProof::prove(&witness, &g0, &g1);
    let verified = DLogEqProof::verify(&dlog_proof);
    assert!(verified.is_ok());
}

#[test]
fn test_dlog_proof_concrete_witness() {
    // the fixed witness 7: the public keys must be the 7th powers of the
    // generators, and the proof must verify
    let witness = Zqf::from(7u64);
    let g0 = Zqg::generator();
    let g1 = Zqg::base_point2();
    let pf = DLogEqProof::prove(&witness, &g0, &g1);
    assert_eq!(pf.pk.0, g0.scalar_mul(&witness));
    assert_eq!(pf.pk.1, g1.scalar_mul(&witness));
    assert!(DLogEqProof::verify(&pf).is_ok());
}

#[test]
fn test_dlog_proof_rejects_tampered_response() {
    let witness = Zqf::from(7u64);
    let g0 = Zqg::generator();
    let g1 = Zqg::base_point2();
    let mut pf = DLogEqProof::prove(&witness, &g0, &g1);
    pf.challenge_response = Zqf::from(pf.challenge_response.to_big_int().wrapping_add(1));
    assert_eq!(DLogEqProof::verify(&pf), Err(ProofError));
}

#[test]
fn test_dlog_proof_rejects_tampered_pk() {
    let witness = Zqf::from(7u64);
    let g0 = Zqg::generator();
    let g1 = Zqg::base_point2();
    let mut pf = DLogEqProof::prove(&witness, &g0, &g1);
    pf.pk.0 = Zqg::from(pf.pk.0.bytes_compressed_to_big_int().wrapping_add(1));
    assert_eq!(DLogEqProof::verify(&pf), Err(ProofError));
}

#[test]
fn test_dlog_proof_rejects_substituted_commitments() {
    // a man in the middle replacing both commitments without knowledge of
    // the witness is rejected
    let witness = Zqf::new_random();
    let g0 = Zqg::generator();
    let g1 = Zqg::base_point2();
    let mut pf = DLogEqProof::prove(&witness, &g0, &g1);
    let fresh = Zqf::new_random();
    pf.pk_t_rand_commitment = (g0.scalar_mul(&fresh), g1.scalar_mul(&fresh));
    assert_eq!(DLogEqProof::verify(&pf), Err(ProofError));
}

#[test]
fn test_dlog_proof_rejects_tampered_generator() {
    let witness = Zqf::from(7u64);
    let g0 = Zqg::generator();
    let g1 = Zqg::base_point2();
    let mut pf = DLogEqProof::prove(&witness, &g0, &g1);
    pf.generator.1 = Zqg::from(pf.generator.1.bytes_compressed_to_big_int().wrapping_add(1));
    assert_eq!(DLogEqProof::verify(&pf), Err(ProofError));
}
