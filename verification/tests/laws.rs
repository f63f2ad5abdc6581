use sigma_dlog::arith::{mod_inverse, sample_below};
use sigma_dlog::hashing::create_hash;
use sigma_dlog::integer_group::{Zqf, Zqg};
use sigma_dlog::rsa_group::RsaGroupParams;
use sigma_dlog::traits::ECPoint;
use sigma_dlog::{ArithmeticError, ErrorKey};

#[test]
fn test_point_bytes_exact() {
    // 1200 = 0x4b0, eight big-endian bytes
    let p = Zqg::from(1200u64);
    assert_eq!(p.pk_to_key_slice(), vec![0, 0, 0, 0, 0, 0, 0x04, 0xb0]);
}

#[test]
fn test_from_bytes_rejects_truncated() {
    let p = Zqg::from(1200u64);
    let bytes = p.pk_to_key_slice();
    assert_eq!(Zqg::from_bytes(&bytes[0..4]), Err(ErrorKey::InvalidEncoding));
    assert_eq!(Zqg::from_bytes(&[]), Err(ErrorKey::InvalidEncoding));
}

#[test]
fn test_from_bytes_rejects_out_of_range() {
    // eight bytes spelling a value at or above the modulus
    let too_big = [0xffu8; 8];
    assert_eq!(Zqg::from_bytes(&too_big), Err(ErrorKey::InvalidEncoding));
}

#[test]
fn test_scalar_action_distributes() {
    // scalar_mul(G, a) + scalar_mul(G, b) == scalar_mul(G, a + b mod q)
    let g = Zqg::base_point2();
    let a = Zqf::from(3u64);
    let b = Zqf::from(5u64);
    let lhs = g.scalar_mul(&a).add_point(&g.scalar_mul(&b));
    let rhs = g.scalar_mul(&a.add(&b));
    assert_eq!(lhs, rhs);
    // and an exact value: 13 * (3 + 5) = 104
    assert_eq!(rhs.bytes_compressed_to_big_int(), 104u64);
}

#[test]
fn test_invert_known_order() {
    let a = Zqf::from(12345u64);
    let inv = a.invert().unwrap();
    let product = a.mul(&inv);
    assert_eq!(product.to_big_int(), 1u64);
    // zero is the one residue sharing a factor with the prime modulus
    assert_eq!(Zqf::zero().invert(), Err(ArithmeticError::NotInvertible));
}

#[test]
fn test_invert_hidden_order() {
    let ps = RsaGroupParams::generate().unwrap();
    let a = sigma_dlog::rsa_group::Zqf::from(12345u64, &ps);
    let inv = a.invert(&ps).unwrap();
    let product = a.mul(&inv, &ps);
    assert_eq!(product.to_big_int(), 1u64);
    assert_eq!(
        sigma_dlog::rsa_group::Zqf::zero().invert(&ps),
        Err(ArithmeticError::NotInvertible)
    );
}

#[test]
fn test_mod_inverse_shares_factor() {
    // 4 and 6 share the factor 2
    assert_eq!(mod_inverse(4, 6), Err(ArithmeticError::NotInvertible));
    // 3 is invertible modulo 7
    let x = mod_inverse(3, 7).unwrap();
    assert_eq!(3 * x % 7, 1);
}

#[test]
fn test_sub_point_known_order() {
    let a = Zqg::from(10u64);
    let b = Zqg::from(3u64);
    assert_eq!(a.sub_point(&b), Zqg::from(7u64));
}

#[test]
fn test_sub_point_hidden_order_inverts_add() {
    // subtracting a unit undoes adding it
    let ps = RsaGroupParams::generate().unwrap();
    let a = sigma_dlog::rsa_group_wrapper::Zqg::from(12345u64, &ps);
    let g = sigma_dlog::rsa_group_wrapper::Zqg::generator(&ps);
    assert_eq!(a.add_point(&g).sub_point(&g).unwrap(), a);
}

#[test]
fn test_sub_point_hidden_order_not_invertible() {
    // the zero element shares every factor with the modulus
    let ps = RsaGroupParams::generate().unwrap();
    let a = sigma_dlog::rsa_group_wrapper::Zqg::from(12345u64, &ps);
    let zero = sigma_dlog::rsa_group_wrapper::Zqg::from(0u64, &ps);
    assert_eq!(a.sub_point(&zero), Err(ArithmeticError::NotInvertible));
}

#[test]
fn test_scalar_action_integer_exponents() {
    // at integer exponents the hidden-order action composes and distributes
    let ps = RsaGroupParams::generate().unwrap();
    let g = sigma_dlog::rsa_group_wrapper::Zqg::generator(&ps);
    let three = sigma_dlog::rsa_group_wrapper::Zqf::from(3u64, &ps);
    let five = sigma_dlog::rsa_group_wrapper::Zqf::from(5u64, &ps);
    let fifteen = sigma_dlog::rsa_group_wrapper::Zqf::from(15u64, &ps);
    let eight = sigma_dlog::rsa_group_wrapper::Zqf::from(8u64, &ps);
    assert_eq!(g.scalar_mul(&three).scalar_mul(&five), g.scalar_mul(&fifteen));
    assert_eq!(
        g.scalar_mul(&three).add_point(&g.scalar_mul(&five)),
        g.scalar_mul(&eight)
    );
}

#[test]
fn test_hash_is_not_identity() {
    // the digest of a transcript is not the transcript
    assert_ne!(create_hash(&[0u64]), 0u64);
    assert_ne!(create_hash(&[1u64]), create_hash(&[2u64]));
    // order matters
    assert_ne!(create_hash(&[1u64, 2u64]), create_hash(&[2u64, 1u64]));
}

#[test]
fn test_zeroize_clears_scalar() {
    let mut s = Zqf::from(987654321u64);
    s.zeroize();
    assert_eq!(s.to_big_int(), 0u64);
}

#[test]
fn test_sample_below_in_range() {
    for _ in 0..100 {
        assert!(sample_below(10) < 10);
    }
    assert_eq!(sample_below(1), 0);
}
