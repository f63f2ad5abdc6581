use sigma_dlog::hashing::create_hash;
use sigma_dlog::integer_group::{Zqf, Zqg};

#[test]
fn integer_group_test_zqf_mul() {
    let zqf1 = Zqf::from(99u64);
    let zqf2 = Zqf::from(100u64);
    let zqf3 = zqf1.mul(&zqf2);
    assert_eq!(zqf3.to_big_int(), 9900u64);
}

#[test]
fn integer_group_test_zqg_from() {
    let zqg = Zqg::from(1200u64);
    let vr = zqg.pk_to_key_slice();
    println!("{:?}", vr);
    let zqg2 = Zqg::from_bytes(vr.as_slice());
    assert_eq!(zqg2.unwrap().bytes_compressed_to_big_int(), 1200u64);
}

#[test]
fn integer_group_test_zqg_base2() {
    let point = Zqg::base_point2();
    let result2 = create_hash(&[
        Zqg::generator().bytes_compressed_to_big_int(),
        point.bytes_compressed_to_big_int(),
    ]);
    let result3 = create_hash(&[
        Zqg::generator().bytes_compressed_to_big_int(),
        point.bytes_compressed_to_big_int(),
    ]);
    println!("{:?} {:?}", result2, result3);
    assert_eq!(result2, result3);
}
