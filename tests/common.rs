use paillier_zk::bignum::BigNat;
use paillier_zk::common::{accept_inversible, combine, gen_inversible, EncryptionKey};

#[test]
fn combine_multiplies_the_powers() {
    let r = combine(
        &BigNat::from_u64(3),
        &BigNat::from_u64(2),
        &BigNat::from_u64(5),
        &BigNat::from_u64(1),
        &BigNat::from_u64(7),
    );
    assert_eq!(r.to_bytes(), vec![3]);
}

#[test]
fn combine_takes_exponents_larger_than_the_modulus() {
    // 2^10 * 3^0 mod 1000 = 24
    let r = combine(
        &BigNat::from_u64(2),
        &BigNat::from_u64(10),
        &BigNat::from_u64(3),
        &BigNat::from_u64(0),
        &BigNat::from_u64(1000),
    );
    assert_eq!(r.to_bytes(), vec![24]);
}

#[test]
fn big_numbers_read_bytes_big_endian() {
    let n = BigNat::from_bytes(&[0, 1, 2]);
    assert_eq!(n.to_bytes(), vec![1, 2]);
    assert_eq!(BigNat::from_u64(258).to_bytes(), vec![1, 2]);
}

#[test]
fn small_key_encrypts_as_the_formula_says() {
    let key = EncryptionKey::from_modulus(BigNat::from_u64(15));
    // 16^2 * 2^15 mod 225
    let c = key.encrypt(&BigNat::from_u64(2), &BigNat::from_u64(2)).unwrap();
    assert_eq!(c.to_bytes(), vec![158]);
    assert_eq!(key.nn().to_bytes(), vec![225]);
}

#[test]
fn encryption_rejects_messages_outside_the_key_range() {
    let key = EncryptionKey::from_modulus(BigNat::from_u64(15));
    assert!(key.encrypt(&BigNat::from_u64(0), &BigNat::from_u64(2)).is_none());
    assert!(key.encrypt(&BigNat::from_u64(15), &BigNat::from_u64(2)).is_none());
    assert!(key.encrypt(&BigNat::from_u64(2), &BigNat::from_u64(0)).is_none());
}

#[test]
fn affine_operation_on_a_small_key() {
    let key = EncryptionKey::from_modulus(BigNat::from_u64(15));
    // 7^3 * enc(2; 2) mod 225
    let c = key
        .affine(&BigNat::from_u64(7), &BigNat::from_u64(3), &BigNat::from_u64(2), &BigNat::from_u64(2))
        .unwrap();
    assert_eq!(c.to_bytes(), vec![194]);
}

#[test]
fn inversible_elements_are_coprime() {
    let n = BigNat::from_u64(35);
    let mut rng = rand_core::OsRng::default();
    for _ in 0..20 {
        let x = gen_inversible(&n, &mut rng).unwrap();
        let v = x.to_bytes()[0];
        assert!(v < 35);
        assert!(v % 5 != 0 && v % 7 != 0);
    }
}

#[test]
fn draws_sharing_a_factor_are_refused() {
    let n = BigNat::from_u64(35);
    assert!(accept_inversible(BigNat::from_u64(10), &n).is_none());
    assert!(accept_inversible(BigNat::from_u64(0), &n).is_none());
    let x = accept_inversible(BigNat::from_u64(12), &n).unwrap();
    assert_eq!(x.to_bytes(), vec![12]);
}

#[test]
fn modulus_one_always_has_an_inversible_element() {
    let mut rng = rand_core::OsRng::default();
    let x = gen_inversible(&BigNat::from_u64(1), &mut rng).unwrap();
    assert_eq!(x.to_bytes(), vec![0]);
}
