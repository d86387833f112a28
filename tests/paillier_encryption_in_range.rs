use libpaillier::unknown_order::BigNumber;
use paillier_zk::bignum::BigNat;
use paillier_zk::common::{EncryptionKey, InvalidProof};
use paillier_zk::paillier_encryption_in_range as p;
use paillier_zk::{EPSILON, L};

fn to_nat(b: &BigNumber) -> BigNat {
    BigNat::from_bytes(&b.to_bytes())
}

fn setup(k: u64) -> (p::Aux, p::Data, p::PrivateData) {
    let private_key0 = libpaillier::DecryptionKey::random().unwrap();
    let key0 = libpaillier::EncryptionKey::from(&private_key0);
    let plaintext = BigNumber::from(k);
    let (ciphertext, nonce) = key0.encrypt(plaintext.to_bytes(), None).unwrap();
    let p = BigNumber::prime(L + EPSILON + 1);
    let q = BigNumber::prime(L + EPSILON + 1);
    let aux = p::Aux {
        s: BigNat::from_u64(123),
        t: BigNat::from_u64(321),
        rsa_modulo: to_nat(&(p * q)),
    };
    let data = p::Data {
        key0: EncryptionKey::from_modulus(to_nat(key0.n())),
        ciphertext: to_nat(&ciphertext),
    };
    let pdata = p::PrivateData { plaintext: to_nat(&plaintext), nonce: to_nat(&nonce) };
    (aux, data, pdata)
}

#[test]
fn encryption_round_trip_and_tampered_commitment() {
    let (aux, data, pdata) = setup(42);
    let (mut commitment, challenge, proof) =
        p::compute_proof(&aux, &data, &pdata, rand_core::OsRng::default()).unwrap();
    assert_eq!(p::verify(&aux, &data, &commitment, &challenge, &proof), Ok(()));

    let mut a = commitment.a.to_bytes();
    let last = a.len() - 1;
    a[last] ^= 1;
    commitment.a = BigNat::from_bytes(&a);
    assert_eq!(
        p::verify(&aux, &data, &commitment, &challenge, &proof),
        Err(InvalidProof::EqualityCheckFailed(1)),
    );
}

#[test]
fn encryption_out_of_range_plaintext_fails_the_range_check() {
    let (aux, data, pdata) = setup(1);
    // a plaintext above the bound, encrypted honestly
    let private_key0 = libpaillier::DecryptionKey::random().unwrap();
    let key0 = libpaillier::EncryptionKey::from(&private_key0);
    let big = BigNumber::one() << (L + EPSILON + 1);
    let (ciphertext, nonce) = key0.encrypt(big.to_bytes(), None).unwrap();
    let data = p::Data {
        key0: EncryptionKey::from_modulus(to_nat(key0.n())),
        ciphertext: to_nat(&ciphertext),
    };
    let pdata = p::PrivateData { plaintext: to_nat(&big), nonce: to_nat(&nonce) };
    let (commitment, challenge, proof) =
        p::compute_proof(&aux, &data, &pdata, rand_core::OsRng::default()).unwrap();
    assert_eq!(
        p::verify(&aux, &data, &commitment, &challenge, &proof),
        Err(InvalidProof::RangeCheckFailed(3)),
    );
    let _ = (data, pdata);
}

#[test]
fn encryption_challenge_changes_with_the_ciphertext() {
    let aux = p::Aux { s: BigNat::from_u64(4), t: BigNat::from_u64(9), rsa_modulo: BigNat::from_u64(35) };
    let comm = p::Commitment { s: BigNat::from_u64(3), a: BigNat::from_u64(5), c: BigNat::from_u64(6) };
    let data1 = p::Data { key0: EncryptionKey::from_modulus(BigNat::from_u64(15)), ciphertext: BigNat::from_u64(7) };
    let data2 = p::Data { key0: EncryptionKey::from_modulus(BigNat::from_u64(15)), ciphertext: BigNat::from_u64(8) };
    let e1 = p::challenge(&aux, &data1, &comm);
    assert_eq!(e1.to_bytes(), p::challenge(&aux, &data1, &comm).to_bytes());
    assert_ne!(e1.to_bytes(), p::challenge(&aux, &data2, &comm).to_bytes());
}
