use sigma_dlog::arith::isqrt;
use sigma_dlog::rsa_group::{RsaGroupParams, Zqf};

#[test]
fn test_pow() {
    let ps = RsaGroupParams::generate().unwrap();
    let zqf1 = 99u64;
    let zqf2 = 100u64;
    let u = Zqf::from(zqf1, &ps);
    let v = u.pow_mod_m(zqf2, &ps);
    println!("{:?}", v);

    let gg = Zqf::get_element_order_without_small_divisor(&ps).unwrap();
    println!("{:?}", ps.phi());
    println!("{:?}", gg);

    let usize_length = 64 - ps.modulus().leading_zeros();
    println!("The usize_length is :{:?}...", usize_length);
}

#[test]
fn test_group_order() {
    let ps = RsaGroupParams::generate().unwrap();
    let generator = Zqf::from(ps.group_generator(), &ps);
    let one = generator.pow_mod_m(ps.phi(), &ps);
    let one_b = 1u64;
    assert_eq!(one.to_big_int(), one_b)
}

#[test]
fn test_bigint_sqrt() {
    let a = 2u64;
    let b = 4u64;
    assert_eq!(a, isqrt(b))
}

#[test]
fn test_sqrt() {
    let k: u32 = 10;
    let ps = RsaGroupParams::generate().unwrap();
    let generator = Zqf::from(ps.group_generator(), &ps);

    let base = Zqf::from(2u64, &ps);
    let exp0 = 2_u64.pow(k - 1);
    let exp1 = 2_u64.pow(k);
    let exp1_0 = 2_u64.pow(k) - 2;
    let exp1_1 = 2_u64.pow(k) - 1;
    let a_0 = base.pow_mod_phi(exp0, &ps);
    let a_1 = base.pow_mod_phi(exp1, &ps);
    let a_1_0 = base.pow_mod_phi(exp1_0, &ps);
    let a_1_1 = base.pow_mod_phi(exp1_1, &ps);

    let _u_0 = generator.pow_mod_m(a_0.to_big_int(), &ps);
    let u_1 = generator.pow_mod_m(a_1.to_big_int(), &ps);

    let m_1 = generator.pow_mod_m(a_1_1.to_big_int(), &ps);

    let m_0 = generator.pow_mod_m(a_1_0.to_big_int(), &ps);

    assert_eq!(m_0.square(&ps).to_big_int(), m_1.to_big_int());
    assert_eq!(m_1.square(&ps).to_big_int(), u_1.to_big_int());
}
