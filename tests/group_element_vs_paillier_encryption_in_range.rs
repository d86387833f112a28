use generic_ec::curves::Secp256r1;
use generic_ec::{Point, Scalar};
use libpaillier::unknown_order::BigNumber;
use paillier_zk::bignum::BigNat;
use paillier_zk::common::{EncryptionKey, InvalidProof};
use paillier_zk::group_element_vs_paillier_encryption_in_range as p;
use paillier_zk::{EPSILON, L};

fn to_nat(b: &BigNumber) -> BigNat {
    BigNat::from_bytes(&b.to_bytes())
}

/// Compressed encoding of `k * G` on Secp256r1.
fn mul_generator(k: &BigNat) -> Vec<u8> {
    let k = Scalar::<Secp256r1>::from_be_bytes_mod_order(k.to_bytes());
    (Point::<Secp256r1>::generator() * k).to_bytes(true).as_bytes().to_vec()
}

fn ring_pedersen() -> p::Aux {
    let p = BigNumber::prime(L + EPSILON + 1);
    let q = BigNumber::prime(L + EPSILON + 1);
    let rsa_modulo = p * q;
    let s: BigNumber = 123.into();
    let t: BigNumber = 321.into();
    assert_eq!(s.gcd(&rsa_modulo), 1.into());
    assert_eq!(t.gcd(&rsa_modulo), 1.into());
    p::Aux { s: to_nat(&s), t: to_nat(&t), rsa_modulo: to_nat(&rsa_modulo) }
}

fn prove_and_verify(plaintext: BigNumber) -> Result<(), InvalidProof> {
    let private_key0 = libpaillier::DecryptionKey::random().unwrap();
    let key0 = libpaillier::EncryptionKey::from(&private_key0);
    let (ciphertext, nonce) = key0.encrypt(plaintext.to_bytes(), None).unwrap();
    let x = mul_generator(&to_nat(&plaintext));

    let data = p::Data {
        key0: EncryptionKey::from_modulus(to_nat(key0.n())),
        c: to_nat(&ciphertext),
        x,
    };
    let pdata = p::PrivateData { x: to_nat(&plaintext), nonce: to_nat(&nonce) };
    let aux = ring_pedersen();

    let (commitment, challenge, proof) = p::compute_proof::<Secp256r1, _>(
        b"test",
        &aux,
        &data,
        &pdata,
        rand_core::OsRng::default(),
    )
    .unwrap();
    p::verify::<Secp256r1>(&aux, &data, &commitment, &challenge, &proof)
}

#[test]
fn passing_p256() {
    let r = prove_and_verify(BigNumber::from(228));
    assert_eq!(r, Ok(()));
}

#[test]
fn failing_p256() {
    let r = prove_and_verify(BigNumber::from(1) << (L + EPSILON + 1));
    assert!(r.is_err(), "proof should not pass");
}

#[test]
fn passing_million() {
    match prove_and_verify(BigNumber::from(228)) {
        Ok(()) => (),
        Err(e) => panic!("{:?}", e),
    }
}

#[test]
fn failing_million() {
    match prove_and_verify(BigNumber::from(1) << (L + EPSILON + 1)) {
        Ok(()) => panic!("proof should not pass"),
        Err(_) => (),
    }
}

#[test]
fn out_of_range_plaintext_fails_the_range_check() {
    let r = prove_and_verify(BigNumber::from(1) << (L + EPSILON + 1));
    assert_eq!(r, Err(InvalidProof::RangeCheckFailed(4)));
}

#[test]
fn empty_tag_fails_to_hash() {
    let aux = p::Aux { s: BigNat::from_u64(4), t: BigNat::from_u64(9), rsa_modulo: BigNat::from_u64(35) };
    let data = p::Data {
        key0: EncryptionKey::from_modulus(BigNat::from_u64(15)),
        c: BigNat::from_u64(7),
        x: mul_generator(&BigNat::from_u64(2)),
    };
    let pdata = p::PrivateData { x: BigNat::from_u64(2), nonce: BigNat::from_u64(2) };
    let r = p::compute_proof::<Secp256r1, _>(b"", &aux, &data, &pdata, rand_core::OsRng::default());
    assert!(r.is_err());
}

#[test]
fn challenge_is_deterministic() {
    let aux = p::Aux { s: BigNat::from_u64(4), t: BigNat::from_u64(9), rsa_modulo: BigNat::from_u64(35) };
    let data = p::Data {
        key0: EncryptionKey::from_modulus(BigNat::from_u64(15)),
        c: BigNat::from_u64(7),
        x: mul_generator(&BigNat::from_u64(2)),
    };
    let comm = p::Commitment {
        s: BigNat::from_u64(3),
        a: BigNat::from_u64(5),
        y: mul_generator(&BigNat::from_u64(3)),
        d: BigNat::from_u64(6),
    };
    let e1 = p::challenge::<Secp256r1>(b"test", &aux, &data, &comm).unwrap();
    let e2 = p::challenge::<Secp256r1>(b"test", &aux, &data, &comm).unwrap();
    assert_eq!(e1.to_bytes(), e2.to_bytes());
    let e3 = p::challenge::<Secp256r1>(b"other", &aux, &data, &comm).unwrap();
    assert_ne!(e1.to_bytes(), e3.to_bytes());
}

#[test]
fn curve_check_rejects_a_malformed_point() {
    let data = p::Data {
        key0: EncryptionKey::from_modulus(BigNat::from_u64(15)),
        c: BigNat::from_u64(7),
        x: vec![7, 7, 7],
    };
    let comm = p::Commitment {
        s: BigNat::from_u64(3),
        a: BigNat::from_u64(5),
        y: mul_generator(&BigNat::from_u64(3)),
        d: BigNat::from_u64(6),
    };
    let proof = p::Proof { z1: BigNat::from_u64(3), z2: BigNat::from_u64(1), z3: BigNat::from_u64(1) };
    let e = BigNat::from_u64(0);
    assert!(!p::curve_check::<Secp256r1>(&data, &comm, &e, &proof));
    // with e = 0 the check is z1 * G == Y, which holds for z1 = 3
    let data = p::Data { x: mul_generator(&BigNat::from_u64(2)), ..data };
    assert!(p::curve_check::<Secp256r1>(&data, &comm, &e, &proof));
    let proof = p::Proof { z1: BigNat::from_u64(4), ..proof };
    assert!(!p::curve_check::<Secp256r1>(&data, &comm, &e, &proof));
}
