use libpaillier::unknown_order::BigNumber;
use paillier_zk::bignum::BigNat;
use paillier_zk::common::{InvalidProof, ProtocolError};
use paillier_zk::paillier_blum_modulus as p;
use paillier_zk::M;

fn to_nat(b: &BigNumber) -> BigNat {
    BigNat::from_bytes(&b.to_bytes())
}

fn blum_prime(bits: usize) -> BigNumber {
    let four = BigNumber::from(4);
    let three = BigNumber::from(3);
    loop {
        let p = BigNumber::prime(bits);
        if p.clone() % four.clone() == three {
            return p;
        }
    }
}

fn honest() -> (p::Data, p::PrivateData) {
    let p = blum_prime(512);
    let mut q = blum_prime(512);
    while q == p {
        q = blum_prime(512);
    }
    let n = p.clone() * q.clone();
    (p::Data { n: to_nat(&n) }, p::PrivateData { p: to_nat(&p), q: to_nat(&q) })
}

#[test]
fn blum_modulus_passes_and_shifted_modulus_fails() {
    let (data, pdata) = honest();
    let (commitment, challenge, proof) =
        p::compute_proof(&data, &pdata, rand_core::OsRng::default()).unwrap();
    assert_eq!(challenge.ys.len(), M);
    assert_eq!(proof.points.len(), M);
    assert_eq!(p::verify(&data, &commitment, &challenge, &proof), Ok(()));

    let n = BigNumber::from_slice(data.n.to_bytes());
    let shifted = p::Data { n: to_nat(&(n + BigNumber::from(2))) };
    let r = p::verify(&shifted, &commitment, &challenge, &proof);
    assert!(matches!(r, Err(InvalidProof::EqualityCheckFailed(_))));
}

#[test]
fn blum_challenges_are_deterministic_and_below_the_modulus() {
    let data = p::Data { n: BigNat::from_u64(77) };
    let comm = p::Commitment { w: BigNat::from_u64(5) };
    let c1 = p::challenge(&data, &comm);
    let c2 = p::challenge(&data, &comm);
    assert_eq!(c1.ys.len(), M);
    for (a, b) in c1.ys.iter().zip(c2.ys.iter()) {
        assert_eq!(a.to_bytes(), b.to_bytes());
        assert!(a.to_bytes().len() == 1 && a.to_bytes()[0] < 77);
    }
}

#[test]
fn blum_proof_with_missing_answers_is_rejected() {
    let (data, pdata) = honest();
    let (commitment, challenge, mut proof) =
        p::compute_proof(&data, &pdata, rand_core::OsRng::default()).unwrap();
    proof.points.pop();
    assert_eq!(
        p::verify(&data, &commitment, &challenge, &proof),
        Err(InvalidProof::LengthMismatch),
    );
}

#[test]
fn blum_commitment_has_jacobi_minus_one() {
    // 7 and 11 are both 3 mod 4
    let data = p::Data { n: BigNat::from_u64(77) };
    let pdata = p::PrivateData { p: BigNat::from_u64(7), q: BigNat::from_u64(11) };
    let c = p::commit(&data, &pdata, rand_core::OsRng::default()).unwrap();
    let w = c.w.to_bytes()[0] as u64;
    let qr7 = (1..7u64).any(|r| r * r % 7 == w % 7);
    let qr11 = (1..11u64).any(|r| r * r % 11 == w % 11);
    assert!(qr7 != qr11);
    assert!(w % 7 != 0 && w % 11 != 0);
}

#[test]
fn blum_small_modulus_round_trip() {
    let data = p::Data { n: BigNat::from_u64(77) };
    let pdata = p::PrivateData { p: BigNat::from_u64(7), q: BigNat::from_u64(11) };
    match p::compute_proof(&data, &pdata, rand_core::OsRng::default()) {
        Ok((c, ch, pf)) => assert_eq!(p::verify(&data, &c, &ch, &pf), Ok(())),
        // a challenge that shares a factor with N has no residue twist
        Err(e) => assert_eq!(e, ProtocolError::InvalidModulus),
    }
}

#[test]
fn commitment_acceptance_follows_the_jacobi_symbol() {
    let pdata = p::PrivateData { p: BigNat::from_u64(7), q: BigNat::from_u64(11) };
    // 2 is a residue mod 7 and not mod 11; 6 is a non-residue mod both (Jacobi +1);
    // 4 is a residue mod both; 7 is not invertible
    assert!(p::accept_commitment(&BigNat::from_u64(2), &pdata));
    assert!(!p::accept_commitment(&BigNat::from_u64(6), &pdata));
    assert!(!p::accept_commitment(&BigNat::from_u64(4), &pdata));
    assert!(!p::accept_commitment(&BigNat::from_u64(7), &pdata));
}
