use libpaillier::unknown_order::BigNumber;
use paillier_zk::bignum::BigNat;
use paillier_zk::common::{EncryptionKey, InvalidProof};
use paillier_zk::paillier_affine_operation_in_range as p;
use paillier_zk::{EPSILON, L};

fn to_nat(b: &BigNumber) -> BigNat {
    BigNat::from_bytes(&b.to_bytes())
}

fn ring_pedersen() -> p::Aux {
    let p = BigNumber::prime(L + EPSILON + 1);
    let q = BigNumber::prime(L + EPSILON + 1);
    let rsa_modulo = p * q;
    let s: BigNumber = 123.into();
    let t: BigNumber = 321.into();
    assert_eq!(s.gcd(&rsa_modulo), 1.into());
    assert_eq!(t.gcd(&rsa_modulo), 1.into());
    p::Aux { s: to_nat(&s), t: to_nat(&t), rsa_modulo: to_nat(&rsa_modulo) }
}

fn prove_and_verify(
    plaintext_orig: BigNumber,
    plaintext_mult: BigNumber,
    plaintext_add: BigNumber,
    expected_sum: Option<BigNumber>,
) -> Result<(), InvalidProof> {
    let private_key0 = libpaillier::DecryptionKey::random().unwrap();
    let key0 = libpaillier::EncryptionKey::from(&private_key0);
    let private_key1 = libpaillier::DecryptionKey::random().unwrap();
    let key1 = libpaillier::EncryptionKey::from(&private_key1);
    let q = BigNumber::from(1_000_000_007);
    let g = BigNumber::from(2);
    // verify that g is generator in Z/q
    assert_eq!(g.gcd(&q), 1.into());
    let (ciphertext_orig, _) = key0.encrypt(plaintext_orig.to_bytes(), None).unwrap();
    let ciphertext_mult = g.modpow(&plaintext_mult, &q);
    let (ciphertext_add, nonce_y) = key1.encrypt(plaintext_add.to_bytes(), None).unwrap();
    let (ciphertext_add_action, nonce) = key0.encrypt(plaintext_add.to_bytes(), None).unwrap();
    // verify that D is obtained from affine transformation of C
    let transformed = key0
        .add(&key0.mul(&ciphertext_orig, &plaintext_mult).unwrap(), &ciphertext_add_action)
        .unwrap();
    if let Some(sum) = expected_sum {
        let (ciphertext, _) = key0.encrypt(sum.to_bytes(), None).unwrap();
        assert_eq!(
            private_key0.decrypt(&transformed).unwrap(),
            private_key0.decrypt(&ciphertext).unwrap(),
        );
    }
    let data = p::Data {
        g: to_nat(&g),
        q: to_nat(&q),
        key0: EncryptionKey::from_modulus(to_nat(key0.n())),
        key1: EncryptionKey::from_modulus(to_nat(key1.n())),
        c: to_nat(&ciphertext_orig),
        d: to_nat(&transformed),
        y: to_nat(&ciphertext_add),
        x: to_nat(&ciphertext_mult),
    };
    let pdata = p::PrivateData {
        x: to_nat(&plaintext_mult),
        y: to_nat(&plaintext_add),
        nonce: to_nat(&nonce),
        nonce_y: to_nat(&nonce_y),
    };
    let aux = ring_pedersen();

    let (commitment, challenge, proof) =
        p::compute_proof(&aux, &data, &pdata, rand_core::OsRng::default()).unwrap();
    p::verify(&aux, &data, &commitment, &challenge, &proof)
}

#[test]
fn passing() {
    let plaintext: BigNumber = 228.into();
    let r = prove_and_verify(
        BigNumber::from(100),
        BigNumber::from(2),
        BigNumber::from(28),
        Some(plaintext),
    );
    match r {
        Ok(()) => (),
        Err(e) => panic!("{:?}", e),
    }
}

#[test]
fn failing() {
    let r = prove_and_verify(
        BigNumber::from(1337),
        BigNumber::one() << (L + EPSILON + 1),
        BigNumber::one() << (L + EPSILON + 2),
        None,
    );
    match r {
        Ok(()) => panic!("proof should not pass"),
        Err(_) => (),
    }
}

#[test]
fn out_of_range_multiplier_fails_the_first_range_check() {
    let r = prove_and_verify(
        BigNumber::from(1337),
        BigNumber::one() << (L + EPSILON + 1),
        BigNumber::one() << (L + EPSILON + 2),
        None,
    );
    assert_eq!(r, Err(InvalidProof::RangeCheckFailed(6)));
}

#[test]
fn out_of_range_addend_fails_the_second_range_check() {
    let r = prove_and_verify(
        BigNumber::from(1337),
        BigNumber::from(2),
        BigNumber::one() << (L + EPSILON + 2),
        None,
    );
    assert_eq!(r, Err(InvalidProof::RangeCheckFailed(7)));
}

fn small_data() -> (p::Aux, p::Data) {
    let aux = p::Aux { s: BigNat::from_u64(4), t: BigNat::from_u64(9), rsa_modulo: BigNat::from_u64(35) };
    let data = p::Data {
        g: BigNat::from_u64(2),
        q: BigNat::from_u64(11),
        key0: EncryptionKey::from_modulus(BigNat::from_u64(15)),
        key1: EncryptionKey::from_modulus(BigNat::from_u64(21)),
        c: BigNat::from_u64(7),
        d: BigNat::from_u64(8),
        y: BigNat::from_u64(10),
        x: BigNat::from_u64(4),
    };
    (aux, data)
}

#[test]
fn affine_challenge_is_deterministic() {
    let (aux, data) = small_data();
    let comm = p::Commitment {
        a: BigNat::from_u64(1),
        b_x: BigNat::from_u64(2),
        b_y: BigNat::from_u64(3),
        e: BigNat::from_u64(4),
        s: BigNat::from_u64(5),
        f: BigNat::from_u64(6),
        t: BigNat::from_u64(7),
    };
    let e1 = p::challenge(&aux, &data, &comm);
    let e2 = p::challenge(&aux, &data, &comm);
    assert_eq!(e1.to_bytes(), e2.to_bytes());
    assert_eq!(e1.to_bytes().len(), 64);
    let mut other = p::Commitment { a: BigNat::from_u64(2), ..comm };
    let e3 = p::challenge(&aux, &data, &other);
    assert_ne!(e1.to_bytes(), e3.to_bytes());
    other.a = BigNat::from_u64(1);
    assert_eq!(p::challenge(&aux, &data, &other).to_bytes(), e1.to_bytes());
}

#[test]
fn prove_computes_the_linear_responses() {
    let (_, data) = small_data();
    let pdata = p::PrivateData {
        x: BigNat::from_u64(3),
        y: BigNat::from_u64(5),
        nonce: BigNat::from_u64(2),
        nonce_y: BigNat::from_u64(4),
    };
    let pcomm = p::PrivateCommitment {
        alpha: BigNat::from_u64(10),
        beta: BigNat::from_u64(20),
        r: BigNat::from_u64(7),
        r_y: BigNat::from_u64(5),
        gamma: BigNat::from_u64(30),
        m: BigNat::from_u64(6),
        delta: BigNat::from_u64(40),
        mu: BigNat::from_u64(8),
    };
    let e = BigNat::from_u64(2);
    let pf = p::prove(&data, &pdata, &pcomm, &e);
    assert_eq!(pf.z1.to_bytes(), vec![16]);
    assert_eq!(pf.z2.to_bytes(), vec![30]);
    assert_eq!(pf.z3.to_bytes(), vec![42]);
    assert_eq!(pf.z4.to_bytes(), vec![56]);
    // 7 * 2^2 mod 15 = 13, 5 * 4^2 mod 21 = 17
    assert_eq!(pf.w.to_bytes(), vec![13]);
    assert_eq!(pf.w_y.to_bytes(), vec![17]);
}

#[test]
fn unencryptable_response_is_reported() {
    let (aux, data) = small_data();
    let comm = p::Commitment {
        a: BigNat::from_u64(1),
        b_x: BigNat::from_u64(2),
        b_y: BigNat::from_u64(3),
        e: BigNat::from_u64(4),
        s: BigNat::from_u64(5),
        f: BigNat::from_u64(6),
        t: BigNat::from_u64(7),
    };
    // z2 = 0 is no valid Paillier message
    let pf = p::Proof {
        z1: BigNat::from_u64(1),
        z2: BigNat::from_u64(0),
        z3: BigNat::from_u64(1),
        z4: BigNat::from_u64(1),
        w: BigNat::from_u64(2),
        w_y: BigNat::from_u64(2),
    };
    let e = BigNat::from_u64(1);
    assert_eq!(p::verify(&aux, &data, &comm, &e, &pf), Err(InvalidProof::EncryptionFailed));
}
