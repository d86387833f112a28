//! Proof that a Paillier plaintext is at most `L` bits (Πenc of CGGMP21).
//!
//! Given a Paillier key `key0` and a ciphertext `K = key0.encrypt(k; rho)`,
//! the prover shows that `bitsize(k) <= L`, disclosing only `key0` and `K`.
use vstd::prelude::*;
use vstd::arithmetic::power::pow;
use rand_core::RngCore;
use crate::bignum::{BigNat, minimal_be, be_value, lemma_be_value_bound, gcd, add_big, mul_big, le_big, eq_big, pow2_big, sample_below};
use crate::common::{
    lemma_encrypt_homomorphic, lemma_mul_congruent, lemma_ring_pedersen_complete, combine, combine_spec, encrypt_opt, gen_inversible, absorb, sha512, sha512_of, EncryptionKey,
    InvalidProof, ProtocolError,
};
use crate::{EPSILON, L};

pub use crate::common::Aux;

verus! {

/// Public data that both parties know.
pub struct Data {
    /// The key that the plaintext is encrypted with
    pub key0: EncryptionKey,
    /// K in the paper, the encryption of the plaintext
    pub ciphertext: BigNat,
}

/// Private data of the prover.
pub struct PrivateData {
    /// k in the paper
    pub plaintext: BigNat,
    /// rho in the paper, the nonce that K was encrypted with
    pub nonce: BigNat,
}

/// Prover's first message, obtained by `commit`.
pub struct Commitment {
    pub s: BigNat,
    pub a: BigNat,
    pub c: BigNat,
}

/// Prover's secret masks accompanying the commitment.
pub struct PrivateCommitment {
    pub alpha: BigNat,
    pub mu: BigNat,
    pub r: BigNat,
    pub gamma: BigNat,
}

/// Verifier's challenge, obtained deterministically by `challenge`.
pub type Challenge = BigNat;

/// The response, computed by `prove`.
pub struct Proof {
    pub z1: BigNat,
    pub z2: BigNat,
    pub z3: BigNat,
}

/// The moduli are positive, so that every modular operation is defined.
pub open spec fn params_ok(aux: &Aux, data: &Data) -> bool {
    &&& aux.rsa_modulo.value() > 0
    &&& data.key0.n.value() > 0
}

/// The masks lie in the ranges that the protocol draws them from.
pub open spec fn masks_in_range(aux: &Aux, data: &Data, p: &PrivateCommitment) -> bool {
    let nhat = aux.rsa_modulo.value();
    &&& p.alpha.value() < pow(2, (L + EPSILON) as nat)
    &&& p.mu.value() < pow(2, L as nat) * nhat
    &&& p.r.value() < data.key0.n.value() && gcd(p.r.value(), data.key0.n.value()) == 1
    &&& p.gamma.value() < pow(2, (L + EPSILON) as nat) * nhat
}

/// The commitment is the one that the masks determine.
pub open spec fn commitment_spec(
    aux: &Aux,
    data: &Data,
    pdata: &PrivateData,
    p: &PrivateCommitment,
    c: &Commitment,
) -> bool {
    let s = aux.s.value();
    let t = aux.t.value();
    let nhat = aux.rsa_modulo.value();
    &&& c.s.value() == combine_spec(s, pdata.plaintext.value(), t, p.mu.value(), nhat)
    &&& encrypt_opt(data.key0.n.value(), p.alpha.value(), p.r.value()) == Some(c.a.value())
    &&& c.c.value() == combine_spec(s, p.alpha.value(), t, p.gamma.value(), nhat)
}

/// The response to challenge `e`.
pub open spec fn proof_spec(
    data: &Data,
    pdata: &PrivateData,
    p: &PrivateCommitment,
    e: nat,
    pf: &Proof,
) -> bool {
    &&& pf.z1.value() == p.alpha.value() + e * pdata.plaintext.value()
    &&& pf.z2.value() == combine_spec(p.r.value(), 1, pdata.nonce.value(), e, data.key0.n.value())
    &&& pf.z3.value() == p.gamma.value() + e * p.mu.value()
}

/// The bytes hashed into the challenge, in their fixed order.
pub open spec fn transcript(aux: &Aux, data: &Data, c: &Commitment) -> Seq<u8> {
    minimal_be(aux.s.value()) + minimal_be(aux.t.value()) + minimal_be(aux.rsa_modulo.value()) + minimal_be(data.key0.n.value())
        + minimal_be(data.ciphertext.value()) + minimal_be(c.s.value()) + minimal_be(c.a.value()) + minimal_be(c.c.value())
}

/// The challenge: the SHA-512 digest of the transcript, read big-endian.
pub open spec fn challenge_spec(aux: &Aux, data: &Data, c: &Commitment) -> nat {
    be_value(sha512_of(transcript(aux, data, c)))
}

/// The verdict on a proof: the first check that fails, in order.
pub open spec fn verify_spec(aux: &Aux, data: &Data, c: &Commitment, e: nat, pf: &Proof) -> Result<
    (),
    InvalidProof,
> {
    let n0 = data.key0.n.value();
    let s = aux.s.value();
    let t = aux.t.value();
    let nhat = aux.rsa_modulo.value();
    match encrypt_opt(n0, pf.z1.value(), pf.z2.value()) {
        None => Err(InvalidProof::EncryptionFailed),
        Some(lhs1) => if lhs1 != combine_spec(c.a.value(), 1, data.ciphertext.value(), e, n0 * n0) {
            Err(InvalidProof::EqualityCheckFailed(1))
        } else if combine_spec(s, pf.z1.value(), t, pf.z3.value(), nhat) != combine_spec(
            c.c.value(),
            1,
            c.s.value(),
            e,
            nhat,
        ) {
            Err(InvalidProof::EqualityCheckFailed(2))
        } else if pf.z1.value() > pow(2, (L + EPSILON) as nat) {
            Err(InvalidProof::RangeCheckFailed(3))
        } else {
            Ok(())
        }
    }
}

/// A plaintext above `2^(L+EPSILON)` is never accepted: whatever the
/// masks, a response to a non-zero challenge fails some check.
pub proof fn lemma_range_soundness(
    aux: &Aux,
    data: &Data,
    pdata: &PrivateData,
    p: &PrivateCommitment,
    c: &Commitment,
    e: nat,
    pf: &Proof,
)
    requires
        proof_spec(data, pdata, p, e, pf),
        e >= 1,
        pdata.plaintext.value() > pow(2, (L + EPSILON) as nat),
    ensures
        verify_spec(aux, data, c, e, pf) != Ok::<(), InvalidProof>(()),
{
    assert(e * pdata.plaintext.value() >= pdata.plaintext.value()) by (nonlinear_arith)
        requires
            e >= 1,
    ;
}

/// An honest prover passes the Ring-Pedersen check: the commitment and the
/// response built from the same masks satisfy `s^z1 t^z3 = C S^e (mod N^)`.
pub proof fn lemma_ring_pedersen_check_passes(
    aux: &Aux,
    data: &Data,
    pdata: &PrivateData,
    p: &PrivateCommitment,
    c: &Commitment,
    e: nat,
    pf: &Proof,
)
    requires
        params_ok(aux, data),
        commitment_spec(aux, data, pdata, p, c),
        proof_spec(data, pdata, p, e, pf),
    ensures
        combine_spec(aux.s.value(), pf.z1.value(), aux.t.value(), pf.z3.value(), aux.rsa_modulo.value())
            == combine_spec(c.c.value(), 1, c.s.value(), e, aux.rsa_modulo.value()),
{
    lemma_ring_pedersen_complete(
        aux.s.value(),
        aux.t.value(),
        aux.rsa_modulo.value(),
        p.alpha.value(),
        p.gamma.value(),
        pdata.plaintext.value(),
        p.mu.value(),
        e,
    );
}

/// Tampering with `A` is caught by the first check: if a proof passes and
/// `A` is replaced by another value below `N^2`, verification fails with
/// `EqualityCheckFailed(1)`, as long as the ciphertext is invertible modulo
/// `N^2` (here witnessed by `k_inv`).
pub proof fn lemma_tampered_commitment_rejected(
    aux: &Aux,
    data: &Data,
    c: &Commitment,
    c2: &Commitment,
    e: nat,
    pf: &Proof,
    k_inv: nat,
)
    requires
        params_ok(aux, data),
        verify_spec(aux, data, c, e, pf) == Ok::<(), InvalidProof>(()),
        c2.s.value() == c.s.value(),
        c2.c.value() == c.c.value(),
        c.a.value() < data.key0.n.value() * data.key0.n.value(),
        c2.a.value() < data.key0.n.value() * data.key0.n.value(),
        c2.a.value() != c.a.value(),
        (data.ciphertext.value() * k_inv) % (data.key0.n.value() * data.key0.n.value()) == 1,
    ensures
        verify_spec(aux, data, c2, e, pf) == Err::<(), InvalidProof>(InvalidProof::EqualityCheckFailed(1)),
{
    let n = data.key0.n.value();
    let nn = (n * n) as int;
    vstd::arithmetic::mul::lemma_mul_strictly_positive(n as int, n as int);
    let a = c.a.value() as int;
    let a2 = c2.a.value() as int;
    let k = data.ciphertext.value() as int;
    let ke = pow(k, e);
    let kie = pow(k_inv as int, e);
    vstd::arithmetic::power::lemma_pow1(a);
    vstd::arithmetic::power::lemma_pow1(a2);
    if (a * ke) % nn == (a2 * ke) % nn {
        lemma_mul_congruent(a * ke, kie, a2 * ke, kie, nn);
        vstd::arithmetic::power::lemma_pow_distributes(k, k_inv as int, e);
        vstd::arithmetic::power::lemma_pow_mod_noop(k * k_inv, e, nn);
        vstd::arithmetic::power::lemma1_pow(e);
        let u = ke * kie;
        let kk = k * k_inv;
        assert(kk % nn == 1);
        assert(nn > 1) by {
            if nn == 1 {
                vstd::arithmetic::div_mod::lemma_mod_self_0(1);
                vstd::arithmetic::div_mod::lemma_mod_multiples_basic(kk, 1);
            }
        }
        assert(pow(kk % nn, e) == 1);
        assert(pow(kk, e) == u);
        vstd::arithmetic::div_mod::lemma_small_mod(1, nn as nat);
        assert(u % nn == 1);
        assert(a * ke * kie == a * u && a2 * ke * kie == a2 * u) by (nonlinear_arith)
            requires
                u == ke * kie,
        ;
        lemma_mul_congruent(a, u, a, 1, nn);
        lemma_mul_congruent(a2, u, a2, 1, nn);
        vstd::arithmetic::div_mod::lemma_small_mod(a as nat, nn as nat);
        vstd::arithmetic::div_mod::lemma_small_mod(a2 as nat, nn as nat);
        assert(false);
    }
}

/// The challenge depends on the public values alone: equal transcripts give
/// equal challenges.
pub proof fn lemma_challenge_deterministic(
    aux1: &Aux,
    data1: &Data,
    c1: &Commitment,
    aux2: &Aux,
    data2: &Data,
    c2: &Commitment,
)
    requires
        transcript(aux1, data1, c1) == transcript(aux2, data2, c2),
    ensures
        challenge_spec(aux1, data1, c1) == challenge_spec(aux2, data2, c2),
{
}

/// An honest proof passes: when the ciphertext encrypts the witness, and
/// the commitment and the response come from the same masks, verification
/// succeeds on every challenge for which the first response is a
/// Paillier message below `2^(L+EPSILON)` and the second is not zero.
pub proof fn lemma_honest_proof_passes(
    aux: &Aux,
    data: &Data,
    pdata: &PrivateData,
    p: &PrivateCommitment,
    c: &Commitment,
    e: nat,
    pf: &Proof,
)
    requires
        params_ok(aux, data),
        encrypt_opt(data.key0.n.value(), pdata.plaintext.value(), pdata.nonce.value()) == Some(
            data.ciphertext.value(),
        ),
        commitment_spec(aux, data, pdata, p, c),
        proof_spec(data, pdata, p, e, pf),
        pf.z1.value() < data.key0.n.value(),
        pf.z1.value() <= pow(2, (L + EPSILON) as nat),
        pf.z2.value() != 0,
    ensures
        verify_spec(aux, data, c, e, pf) == Ok::<(), InvalidProof>(()),
{
    let n = data.key0.n.value();
    lemma_encrypt_homomorphic(n, p.alpha.value(), p.r.value(), pdata.plaintext.value(), pdata.nonce.value(), e);
    vstd::arithmetic::mul::lemma_mul_strictly_positive(n as int, n as int);
    assert(pf.z2.value() < n);
    lemma_ring_pedersen_check_passes(aux, data, pdata, p, c, e, pf);
}

/// Draws fresh masks from their ranges.
pub fn sample_masks<R: RngCore>(aux: &Aux, data: &Data, rng: &mut R) -> (r: Result<
    PrivateCommitment,
    ProtocolError,
>)
    requires
        params_ok(aux, data),
    ensures
        r matches Ok(p) ==> masks_in_range(aux, data, &p),
        r is Err ==> r == Err::<PrivateCommitment, ProtocolError>(ProtocolError::SamplingFailed),
{
    let two_to_l = pow2_big(L);
    let two_to_l_e = pow2_big(L + EPSILON);
    let modulo_l = mul_big(&two_to_l, &aux.rsa_modulo);
    let modulo_l_e = mul_big(&two_to_l_e, &aux.rsa_modulo);
    proof {
        vstd::arithmetic::power::lemma_pow_positive(2, L as nat);
        vstd::arithmetic::power::lemma_pow_positive(2, (L + EPSILON) as nat);
        vstd::arithmetic::mul::lemma_mul_strictly_positive(pow(2, L as nat), aux.rsa_modulo.value() as int);
        vstd::arithmetic::mul::lemma_mul_strictly_positive(pow(2, (L + EPSILON) as nat), aux.rsa_modulo.value() as int);
    }
    let alpha = sample_below(&two_to_l_e, rng);
    let mu = sample_below(&modulo_l, rng);
    let r = match gen_inversible(&data.key0.n, rng) {
        Some(v) => v,
        None => return Err(ProtocolError::SamplingFailed),
    };
    let gamma = sample_below(&modulo_l_e, rng);
    Ok(PrivateCommitment { alpha, mu, r, gamma })
}

/// Builds the commitment from given masks. It fails exactly when the
/// encryption of `alpha` does.
pub fn commit_with(aux: &Aux, data: &Data, pdata: &PrivateData, pcomm: &PrivateCommitment) -> (r:
    Result<Commitment, ProtocolError>)
    requires
        params_ok(aux, data),
    ensures
        r is Ok <==> encrypt_opt(data.key0.n.value(), pcomm.alpha.value(), pcomm.r.value()) is Some,
        r is Err ==> r == Err::<Commitment, ProtocolError>(ProtocolError::EncryptionFailed),
        r matches Ok(c) ==> commitment_spec(aux, data, pdata, pcomm, &c),
{
    let a = match data.key0.encrypt(&pcomm.alpha, &pcomm.r) {
        Some(v) => v,
        None => return Err(ProtocolError::EncryptionFailed),
    };
    Ok(Commitment {
        s: combine(&aux.s, &pdata.plaintext, &aux.t, &pcomm.mu, &aux.rsa_modulo),
        a,
        c: combine(&aux.s, &pcomm.alpha, &aux.t, &pcomm.gamma, &aux.rsa_modulo),
    })
}

/// Creates a random commitment.
pub fn commit<R: RngCore>(aux: &Aux, data: &Data, pdata: &PrivateData, mut rng: R) -> (r: Result<
    (Commitment, PrivateCommitment),
    ProtocolError,
>)
    requires
        params_ok(aux, data),
    ensures
        r matches Err(err) ==> err == ProtocolError::SamplingFailed || err == ProtocolError::EncryptionFailed,
        r matches Ok((c, p)) ==> masks_in_range(aux, data, &p) && commitment_spec(
            aux,
            data,
            pdata,
            &p,
            &c,
        ),
{
    let pcomm = match sample_masks(aux, data, &mut rng) {
        Ok(p) => p,
        Err(e) => return Err(e),
    };
    match commit_with(aux, data, pdata, &pcomm) {
        Ok(c) => Ok((c, pcomm)),
        Err(e) => Err(e),
    }
}

/// Deterministically computes the challenge from the public values.
pub fn challenge(aux: &Aux, data: &Data, commitment: &Commitment) -> (r: Challenge)
    ensures
        r.value() == challenge_spec(aux, data, commitment),
        r.value() < pow(256, 64),
{
    let mut buf: Vec<u8> = Vec::new();
    absorb(&mut buf, &aux.s);
    absorb(&mut buf, &aux.t);
    absorb(&mut buf, &aux.rsa_modulo);
    absorb(&mut buf, &data.key0.n);
    absorb(&mut buf, &data.ciphertext);
    absorb(&mut buf, &commitment.s);
    absorb(&mut buf, &commitment.a);
    absorb(&mut buf, &commitment.c);
    assert(buf@ == transcript(aux, data, commitment));
    let digest = sha512(&buf);
    proof {
        lemma_be_value_bound(digest@);
    }
    BigNat::from_bytes(digest.as_slice())
}

/// Computes the response for given data and prior protocol values.
pub fn prove(data: &Data, pdata: &PrivateData, pcomm: &PrivateCommitment, challenge: &Challenge) -> (r:
    Proof)
    requires
        data.key0.n.value() > 0,
    ensures
        proof_spec(data, pdata, pcomm, challenge.value(), &r),
{
    let one = BigNat::from_u64(1);
    Proof {
        z1: add_big(&pcomm.alpha, &mul_big(challenge, &pdata.plaintext)),
        z2: combine(&pcomm.r, &one, &pdata.nonce, challenge, &data.key0.n),
        z3: add_big(&pcomm.gamma, &mul_big(challenge, &pcomm.mu)),
    }
}

/// Verifies the proof: two equality checks and one range check, reporting
/// the first that fails.
pub fn verify(aux: &Aux, data: &Data, commitment: &Commitment, challenge: &Challenge, proof: &Proof) -> (r:
    Result<(), InvalidProof>)
    requires
        params_ok(aux, data),
    ensures
        r == verify_spec(aux, data, commitment, challenge.value(), proof),
{
    let one = BigNat::from_u64(1);
    let nn0 = data.key0.nn();
    proof {
        vstd::arithmetic::mul::lemma_mul_strictly_positive(data.key0.n.value() as int, data.key0.n.value() as int);
    }
    {
        let lhs = match data.key0.encrypt(&proof.z1, &proof.z2) {
            Some(v) => v,
            None => return Err(InvalidProof::EncryptionFailed),
        };
        let rhs = combine(&commitment.a, &one, &data.ciphertext, challenge, &nn0);
        if !eq_big(&lhs, &rhs) {
            return Err(InvalidProof::EqualityCheckFailed(1));
        }
    }
    {
        let lhs = combine(&aux.s, &proof.z1, &aux.t, &proof.z3, &aux.rsa_modulo);
        let rhs = combine(&commitment.c, &one, &commitment.s, challenge, &aux.rsa_modulo);
        if !eq_big(&lhs, &rhs) {
            return Err(InvalidProof::EqualityCheckFailed(2));
        }
    }
    let bound = pow2_big(L + EPSILON);
    if !le_big(&proof.z1, &bound) {
        return Err(InvalidProof::RangeCheckFailed(3));
    }
    Ok(())
}

/// Computes a proof for the given data: a random commitment, the challenge
/// derived from it and the response.
pub fn compute_proof<R: RngCore>(aux: &Aux, data: &Data, pdata: &PrivateData, rng: R) -> (r: Result<
    (Commitment, Challenge, Proof),
    ProtocolError,
>)
    requires
        params_ok(aux, data),
    ensures
        r matches Err(err) ==> err == ProtocolError::SamplingFailed || err == ProtocolError::EncryptionFailed,
        r matches Ok((c, e, pf)) ==> e.value() == challenge_spec(aux, data, &c),
        r matches Ok((c, e, pf)) ==> exists|p: PrivateCommitment|
            #![trigger masks_in_range(aux, data, &p)]
            masks_in_range(aux, data, &p) && commitment_spec(aux, data, pdata, &p, &c)
                && proof_spec(data, pdata, &p, e.value(), &pf),
{
    let (comm, pcomm) = match commit(aux, data, pdata, rng) {
        Ok(v) => v,
        Err(e) => return Err(e),
    };
    let challenge = challenge(aux, data, &comm);
    let proof = prove(data, pdata, &pcomm, &challenge);
    assert(masks_in_range(aux, data, &pcomm) && commitment_spec(aux, data, pdata, &pcomm, &comm)
        && proof_spec(data, pdata, &pcomm, challenge.value(), &proof));
    Ok((comm, challenge, proof))
}

} // verus!
