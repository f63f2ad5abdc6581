use sigma_dlog::hashing::create_hash;
use sigma_dlog::rsa_group::RsaGroupParams;
use sigma_dlog::rsa_group_wrapper::{Zqf, Zqg};
use sigma_dlog::traits::{ECPoint, ECScalar};

#[test]
fn rsa_group_wrapper_test_zqf_mul() {
    let ps = RsaGroupParams::generate().unwrap();
    let zqf1 = 99u64;
    let zqf2 = 100u64;
    let zqf3 = zqf1 * zqf2;
    assert_eq!(zqf3, 9900u64);
    println!("{:?}", Zqf::q(&ps))
}

#[test]
fn rsa_group_wrapper_test_zqg_from() {
    let ps = RsaGroupParams::generate().unwrap();
    let zqg = Zqg::from(1200u64, &ps);
    let vr = zqg.pk_to_key_slice();
    println!("{:?}", vr);
    let zqg2 = Zqg::from_bytes(vr.as_slice(), &ps);
    assert_eq!(zqg2.unwrap().bytes_compressed_to_big_int(), 1200u64);
}

#[test]
fn rsa_group_wrapper_test_zqg_base2() {
    let ps = RsaGroupParams::generate().unwrap();
    let point = Zqg::base_point2(&ps);
    let result2 = create_hash(&[
        Zqg::generator(&ps).bytes_compressed_to_big_int(),
        point.bytes_compressed_to_big_int(),
    ]);
    let result3 = create_hash(&[
        Zqg::generator(&ps).bytes_compressed_to_big_int(),
        point.bytes_compressed_to_big_int(),
    ]);
    println!("{:?} {:?}", result2, result3);
    assert_eq!(result2, result3);
}

#[test]
fn test_zqg_add() {
    let ps = RsaGroupParams::generate().unwrap();
    let a = Zqg::from(2u64, &ps);
    let b = Zqg::from(4u64, &ps);
    let c = a.add_point(&b);

    assert_eq!(c, Zqg::from(8u64, &ps))
}

#[test]
fn test_zqg_mul_scalar() {
    let ps = RsaGroupParams::generate().unwrap();
    let a_inner = 2_u64.pow(50);
    let a = Zqf::from(a_inner, &ps);
    // 7^39 exceeds a machine word; build it in the exponent ring
    let b_inner = sigma_dlog::rsa_group::Zqf::from(7u64, &ps).pow_mod_phi(39, &ps).to_big_int();
    let b = Zqf::from(b_inner, &ps);
    let d_inner = 13u64;
    let d = Zqf::from(d_inner, &ps);
    let c = a.mul(&b).add(&d);

    let base = Zqg::generator(&ps);

    let base_c = base.scalar_mul(&c);

    let a_0 = Zqf::from(a_inner, &ps);
    let b_0 = Zqf::from(b_inner, &ps);
    let d_0 = Zqf::from(d_inner, &ps);

    let base_left = base.scalar_mul(&a_0);

    let base_ab = base_left.scalar_mul(&b_0).add_point(&base.scalar_mul(&d_0));

    assert_eq!(base_c, base_ab)
}
