//! Proof of a Paillier affine operation with a group commitment, in range
//! (Πaff-g of CGGMP21).
//!
//! A party holding `x` and `y` computes `D = C * x + Y'` under `key0`, where
//! `Y = key1.encrypt(y)` and `X = g^x mod q`, and proves that `x` and `y` are
//! at most `L` bits without disclosing them. Public: `g`, `q`, `key0`,
//! `key1`, `C`, `D`, `Y`, `X`.
use vstd::prelude::*;
use vstd::arithmetic::power::pow;
use rand_core::RngCore;
use crate::bignum::{BigNat, minimal_be, be_value, lemma_be_value_bound, gcd, add_big, mul_big, modpow_big, le_big, eq_big, pow2_big, sample_below};
use crate::common::{
    lemma_affine_homomorphic, lemma_encrypt_homomorphic, lemma_ring_pedersen_complete, combine, combine_spec, encrypt_opt, affine_opt, gen_inversible, absorb, sha512,
    sha512_of, EncryptionKey, InvalidProof, ProtocolError,
};
use crate::{EPSILON, L, L_PRIME};

pub use crate::common::Aux;

verus! {

/// Public data that both parties know.
pub struct Data {
    /// Group generator
    pub g: BigNat,
    /// Group order
    pub q: BigNat,
    /// N0 in the paper, the key that C was encrypted with
    pub key0: EncryptionKey,
    /// N1 in the paper, the key that y was encrypted with to give Y
    pub key1: EncryptionKey,
    /// C in the paper, some data encrypted under N0
    pub c: BigNat,
    /// D in the paper, the affine transformation of C with x and y
    pub d: BigNat,
    /// Y in the paper, y encrypted under N1
    pub y: BigNat,
    /// X in the paper, g^x mod q
    pub x: BigNat,
}

/// Private data of the prover.
pub struct PrivateData {
    /// preimage of X
    pub x: BigNat,
    /// preimage of Y
    pub y: BigNat,
    /// rho in the paper, nonce of the encryption of y under N0
    pub nonce: BigNat,
    /// rho_y in the paper, nonce of the encryption of y under N1
    pub nonce_y: BigNat,
}

/// Prover's first message, obtained by `commit`.
pub struct Commitment {
    pub a: BigNat,
    pub b_x: BigNat,
    pub b_y: BigNat,
    pub e: BigNat,
    pub s: BigNat,
    pub f: BigNat,
    pub t: BigNat,
}

/// Prover's secret masks accompanying the commitment.
pub struct PrivateCommitment {
    pub alpha: BigNat,
    pub beta: BigNat,
    pub r: BigNat,
    pub r_y: BigNat,
    pub gamma: BigNat,
    pub m: BigNat,
    pub delta: BigNat,
    pub mu: BigNat,
}

/// Verifier's challenge, obtained deterministically by `challenge`.
pub type Challenge = BigNat;

/// The response, computed by `prove`.
pub struct Proof {
    pub z1: BigNat,
    pub z2: BigNat,
    pub z3: BigNat,
    pub z4: BigNat,
    pub w: BigNat,
    pub w_y: BigNat,
}

/// The moduli are positive, so that every modular operation is defined.
pub open spec fn params_ok(aux: &Aux, data: &Data) -> bool {
    &&& aux.rsa_modulo.value() > 0
    &&& data.q.value() > 0
    &&& data.key0.n.value() > 0
    &&& data.key1.n.value() > 0
}

/// The masks lie in the ranges that the protocol draws them from.
pub open spec fn masks_in_range(aux: &Aux, data: &Data, p: &PrivateCommitment) -> bool {
    let two_l = pow(2, L as nat);
    let two_le = pow(2, (L + EPSILON) as nat);
    let nhat = aux.rsa_modulo.value();
    &&& p.alpha.value() < two_le
    &&& p.beta.value() < pow(2, (L_PRIME + EPSILON) as nat)
    &&& p.r.value() < data.key0.n.value() && gcd(p.r.value(), data.key0.n.value()) == 1
    &&& p.r_y.value() < data.key1.n.value() && gcd(p.r_y.value(), data.key1.n.value()) == 1
    &&& p.gamma.value() < two_le * nhat
    &&& p.m.value() < two_l * nhat
    &&& p.delta.value() < two_le * nhat
    &&& p.mu.value() < two_l * nhat
}

/// The commitment is the one that the masks determine.
pub open spec fn commitment_spec(
    aux: &Aux,
    data: &Data,
    pdata: &PrivateData,
    p: &PrivateCommitment,
    c: &Commitment,
) -> bool {
    let s = aux.s.value();
    let t = aux.t.value();
    let nhat = aux.rsa_modulo.value();
    &&& affine_opt(data.key0.n.value(), data.c.value(), p.alpha.value(), p.beta.value(), p.r.value())
        == Some(c.a.value())
    &&& c.b_x.value() == pow(data.g.value() as int, p.alpha.value()) % (data.q.value() as int)
    &&& encrypt_opt(data.key1.n.value(), p.beta.value(), p.r_y.value()) == Some(c.b_y.value())
    &&& c.e.value() == combine_spec(s, p.alpha.value(), t, p.gamma.value(), nhat)
    &&& c.s.value() == combine_spec(s, pdata.x.value(), t, p.m.value(), nhat)
    &&& c.f.value() == combine_spec(s, p.beta.value(), t, p.delta.value(), nhat)
    &&& c.t.value() == combine_spec(s, pdata.y.value(), t, p.mu.value(), nhat)
}

/// The Paillier operations of the commitment accept the masks.
pub open spec fn commitment_defined(data: &Data, p: &PrivateCommitment) -> bool {
    &&& affine_opt(data.key0.n.value(), data.c.value(), p.alpha.value(), p.beta.value(), p.r.value())
        is Some
    &&& encrypt_opt(data.key1.n.value(), p.beta.value(), p.r_y.value()) is Some
}

/// The response to challenge `e`.
pub open spec fn proof_spec(
    data: &Data,
    pdata: &PrivateData,
    p: &PrivateCommitment,
    e: nat,
    pf: &Proof,
) -> bool {
    &&& pf.z1.value() == p.alpha.value() + e * pdata.x.value()
    &&& pf.z2.value() == p.beta.value() + e * pdata.y.value()
    &&& pf.z3.value() == p.gamma.value() + e * p.m.value()
    &&& pf.z4.value() == p.delta.value() + e * p.mu.value()
    &&& pf.w.value() == combine_spec(p.r.value(), 1, pdata.nonce.value(), e, data.key0.n.value())
    &&& pf.w_y.value() == combine_spec(p.r_y.value(), 1, pdata.nonce_y.value(), e, data.key1.n.value())
}

/// The bytes hashed into the challenge, in their fixed order.
pub open spec fn transcript(aux: &Aux, data: &Data, c: &Commitment) -> Seq<u8> {
    minimal_be(aux.s.value()) + minimal_be(aux.t.value()) + minimal_be(aux.rsa_modulo.value()) + minimal_be(data.g.value())
        + minimal_be(data.q.value()) + minimal_be(data.key0.n.value()) + minimal_be(data.key1.n.value()) + minimal_be(data.c.value())
        + minimal_be(data.d.value()) + minimal_be(data.y.value()) + minimal_be(data.x.value()) + minimal_be(c.a.value())
        + minimal_be(c.b_x.value()) + minimal_be(c.b_y.value()) + minimal_be(c.e.value()) + minimal_be(c.s.value()) + minimal_be(c.f.value())
        + minimal_be(c.t.value())
}

/// The challenge: the SHA-512 digest of the transcript, read big-endian.
pub open spec fn challenge_spec(aux: &Aux, data: &Data, c: &Commitment) -> nat {
    be_value(sha512_of(transcript(aux, data, c)))
}

/// The verdict on a proof: the first check that fails, in order.
pub open spec fn verify_spec(aux: &Aux, data: &Data, c: &Commitment, e: nat, pf: &Proof) -> Result<
    (),
    InvalidProof,
> {
    let n0 = data.key0.n.value();
    let n1 = data.key1.n.value();
    let s = aux.s.value();
    let t = aux.t.value();
    let nhat = aux.rsa_modulo.value();
    let bound = pow(2, (L + EPSILON) as nat);
    let bound_prime = pow(2, (L_PRIME + EPSILON) as nat);
    match affine_opt(n0, data.c.value(), pf.z1.value(), pf.z2.value(), pf.w.value()) {
        None => Err(InvalidProof::EncryptionFailed),
        Some(lhs1) => if lhs1 != combine_spec(c.a.value(), 1, data.d.value(), e, n0 * n0) {
            Err(InvalidProof::EqualityCheckFailed(1))
        } else if pow(data.g.value() as int, pf.z1.value()) % (data.q.value() as int)
            != combine_spec(c.b_x.value(), 1, data.x.value(), e, data.q.value()) {
            Err(InvalidProof::EqualityCheckFailed(2))
        } else {
            match encrypt_opt(n1, pf.z2.value(), pf.w_y.value()) {
                None => Err(InvalidProof::EncryptionFailed),
                Some(lhs3) => if lhs3 != combine_spec(c.b_y.value(), 1, data.y.value(), e, n1 * n1) {
                    Err(InvalidProof::EqualityCheckFailed(3))
                } else if combine_spec(s, pf.z1.value(), t, pf.z3.value(), nhat) != combine_spec(
                    c.e.value(),
                    1,
                    c.s.value(),
                    e,
                    nhat,
                ) {
                    Err(InvalidProof::EqualityCheckFailed(4))
                } else if combine_spec(s, pf.z2.value(), t, pf.z4.value(), nhat) != combine_spec(
                    c.f.value(),
                    1,
                    c.t.value(),
                    e,
                    nhat,
                ) {
                    Err(InvalidProof::EqualityCheckFailed(5))
                } else if pf.z1.value() > bound {
                    Err(InvalidProof::RangeCheckFailed(6))
                } else if pf.z2.value() > bound_prime {
                    Err(InvalidProof::RangeCheckFailed(7))
                } else {
                    Ok(())
                }
            }
        }
    }
}

/// A multiplier or an addend above `2^(L+EPSILON)` is never accepted:
/// whatever the masks, a response to a non-zero challenge fails some check.
pub proof fn lemma_range_soundness(
    aux: &Aux,
    data: &Data,
    pdata: &PrivateData,
    p: &PrivateCommitment,
    c: &Commitment,
    e: nat,
    pf: &Proof,
)
    requires
        proof_spec(data, pdata, p, e, pf),
        e >= 1,
        pdata.x.value() > pow(2, (L + EPSILON) as nat) || pdata.y.value() > pow(
            2,
            (L_PRIME + EPSILON) as nat,
        ),
    ensures
        verify_spec(aux, data, c, e, pf) != Ok::<(), InvalidProof>(()),
{
    assert(e * pdata.x.value() >= pdata.x.value()) by (nonlinear_arith)
        requires
            e >= 1,
    ;
    assert(e * pdata.y.value() >= pdata.y.value()) by (nonlinear_arith)
        requires
            e >= 1,
    ;
}

/// An honest prover passes both Ring-Pedersen checks: the commitment and
/// the response built from the same masks satisfy `s^z1 t^z3 = E S^e` and
/// `s^z2 t^z4 = F T^e` modulo `N^`.
pub proof fn lemma_ring_pedersen_checks_pass(
    aux: &Aux,
    data: &Data,
    pdata: &PrivateData,
    p: &PrivateCommitment,
    c: &Commitment,
    e: nat,
    pf: &Proof,
)
    requires
        params_ok(aux, data),
        commitment_spec(aux, data, pdata, p, c),
        proof_spec(data, pdata, p, e, pf),
    ensures
        combine_spec(aux.s.value(), pf.z1.value(), aux.t.value(), pf.z3.value(), aux.rsa_modulo.value())
            == combine_spec(c.e.value(), 1, c.s.value(), e, aux.rsa_modulo.value()),
        combine_spec(aux.s.value(), pf.z2.value(), aux.t.value(), pf.z4.value(), aux.rsa_modulo.value())
            == combine_spec(c.f.value(), 1, c.t.value(), e, aux.rsa_modulo.value()),
{
    lemma_ring_pedersen_complete(
        aux.s.value(),
        aux.t.value(),
        aux.rsa_modulo.value(),
        p.alpha.value(),
        p.gamma.value(),
        pdata.x.value(),
        p.m.value(),
        e,
    );
    lemma_ring_pedersen_complete(
        aux.s.value(),
        aux.t.value(),
        aux.rsa_modulo.value(),
        p.beta.value(),
        p.delta.value(),
        pdata.y.value(),
        p.mu.value(),
        e,
    );
}

/// An honest prover passes the group check: with `X = g^x mod q` and the
/// commitment built from the same masks as the response,
/// `g^z1 = B_x X^e (mod q)`.
pub proof fn lemma_group_check_passes(
    aux: &Aux,
    data: &Data,
    pdata: &PrivateData,
    p: &PrivateCommitment,
    c: &Commitment,
    e: nat,
    pf: &Proof,
)
    requires
        params_ok(aux, data),
        commitment_spec(aux, data, pdata, p, c),
        proof_spec(data, pdata, p, e, pf),
        data.x.value() == pow(data.g.value() as int, pdata.x.value()) % (data.q.value() as int),
    ensures
        pow(data.g.value() as int, pf.z1.value()) % (data.q.value() as int) == combine_spec(
            c.b_x.value(),
            1,
            data.x.value(),
            e,
            data.q.value(),
        ),
{
    let g = data.g.value();
    let q = data.q.value();
    lemma_ring_pedersen_complete(g, 1, q, p.alpha.value(), 0, pdata.x.value(), 0, e);
    vstd::arithmetic::power::lemma_pow0(1);
    assert(e * 0 == 0);
    assert(combine_spec(g, p.alpha.value(), 1, 0, q) == c.b_x.value());
    assert(combine_spec(g, pdata.x.value(), 1, 0, q) == data.x.value());
    assert((0 + e * 0) as nat == 0);
    let z = p.alpha.value() + e * pdata.x.value();
    let one = pow(1, 0);
    assert(one == 1);
    let pz = pow(g as int, z);
    assert(pz * one == pz) by (nonlinear_arith)
        requires
            one == 1,
    ;
    assert(z == pf.z1.value());
    assert(combine_spec(g, p.alpha.value() + e * pdata.x.value(), 1, 0, q) == pow(g as int, pf.z1.value())
        % (q as int));
}

/// An honest proof passes: when `D`, `Y` and `X` are computed from the
/// witnesses, and the commitment and the response come from the same
/// masks, verification succeeds on every challenge for which the Paillier
/// operations accept the responses and the responses stay within their
/// bounds.
pub proof fn lemma_honest_proof_passes(
    aux: &Aux,
    data: &Data,
    pdata: &PrivateData,
    p: &PrivateCommitment,
    c: &Commitment,
    e: nat,
    pf: &Proof,
)
    requires
        params_ok(aux, data),
        affine_opt(
            data.key0.n.value(),
            data.c.value(),
            pdata.x.value(),
            pdata.y.value(),
            pdata.nonce.value(),
        ) == Some(data.d.value()),
        encrypt_opt(data.key1.n.value(), pdata.y.value(), pdata.nonce_y.value()) == Some(
            data.y.value(),
        ),
        data.x.value() == pow(data.g.value() as int, pdata.x.value()) % (data.q.value() as int),
        commitment_spec(aux, data, pdata, p, c),
        proof_spec(data, pdata, p, e, pf),
        affine_opt(data.key0.n.value(), data.c.value(), pf.z1.value(), pf.z2.value(), pf.w.value())
            is Some,
        encrypt_opt(data.key1.n.value(), pf.z2.value(), pf.w_y.value()) is Some,
        pf.z1.value() <= pow(2, (L + EPSILON) as nat),
        pf.z2.value() <= pow(2, (L_PRIME + EPSILON) as nat),
    ensures
        verify_spec(aux, data, c, e, pf) == Ok::<(), InvalidProof>(()),
{
    assert(encrypt_opt(data.key0.n.value(), pdata.y.value(), pdata.nonce.value()) is Some);
    lemma_affine_homomorphic(
        data.key0.n.value(),
        data.c.value(),
        p.alpha.value(),
        p.beta.value(),
        p.r.value(),
        pdata.x.value(),
        pdata.y.value(),
        pdata.nonce.value(),
        e,
        c.a.value(),
        data.d.value(),
    );
    lemma_encrypt_homomorphic(
        data.key1.n.value(),
        p.beta.value(),
        p.r_y.value(),
        pdata.y.value(),
        pdata.nonce_y.value(),
        e,
    );
    lemma_group_check_passes(aux, data, pdata, p, c, e, pf);
    lemma_ring_pedersen_checks_pass(aux, data, pdata, p, c, e, pf);
}

/// The challenge depends on the public values alone: equal transcripts give
/// equal challenges.
pub proof fn lemma_challenge_deterministic(
    aux1: &Aux,
    data1: &Data,
    c1: &Commitment,
    aux2: &Aux,
    data2: &Data,
    c2: &Commitment,
)
    requires
        transcript(aux1, data1, c1) == transcript(aux2, data2, c2),
    ensures
        challenge_spec(aux1, data1, c1) == challenge_spec(aux2, data2, c2),
{
}

/// Draws fresh masks from their ranges.
pub fn sample_masks<R: RngCore>(aux: &Aux, data: &Data, rng: &mut R) -> (r: Result<
    PrivateCommitment,
    ProtocolError,
>)
    requires
        params_ok(aux, data),
    ensures
        r matches Ok(p) ==> masks_in_range(aux, data, &p),
        r is Err ==> r == Err::<PrivateCommitment, ProtocolError>(ProtocolError::SamplingFailed),
{
    let two_to_l = pow2_big(L);
    let two_to_l_e = pow2_big(L + EPSILON);
    let modulo_l = mul_big(&two_to_l, &aux.rsa_modulo);
    let modulo_l_e = mul_big(&two_to_l_e, &aux.rsa_modulo);
    let two_to_l_prime_e = pow2_big(L_PRIME + EPSILON);
    proof {
        vstd::arithmetic::power::lemma_pow_positive(2, (L_PRIME + EPSILON) as nat);
        vstd::arithmetic::power::lemma_pow_positive(2, L as nat);
        vstd::arithmetic::power::lemma_pow_positive(2, (L + EPSILON) as nat);
        vstd::arithmetic::mul::lemma_mul_strictly_positive(pow(2, L as nat), aux.rsa_modulo.value() as int);
        vstd::arithmetic::mul::lemma_mul_strictly_positive(pow(2, (L + EPSILON) as nat), aux.rsa_modulo.value() as int);
    }
    let alpha = sample_below(&two_to_l_e, rng);
    let beta = sample_below(&two_to_l_prime_e, rng);
    let r = match gen_inversible(&data.key0.n, rng) {
        Some(v) => v,
        None => return Err(ProtocolError::SamplingFailed),
    };
    let r_y = match gen_inversible(&data.key1.n, rng) {
        Some(v) => v,
        None => return Err(ProtocolError::SamplingFailed),
    };
    let gamma = sample_below(&modulo_l_e, rng);
    let m = sample_below(&modulo_l, rng);
    let delta = sample_below(&modulo_l_e, rng);
    let mu = sample_below(&modulo_l, rng);
    Ok(PrivateCommitment { alpha, beta, r, r_y, gamma, m, delta, mu })
}

/// Builds the commitment from given masks. It fails exactly when a Paillier
/// operation rejects the masks.
pub fn commit_with(aux: &Aux, data: &Data, pdata: &PrivateData, pcomm: &PrivateCommitment) -> (r:
    Result<Commitment, ProtocolError>)
    requires
        params_ok(aux, data),
    ensures
        r is Ok <==> commitment_defined(data, pcomm),
        r is Err ==> r == Err::<Commitment, ProtocolError>(ProtocolError::EncryptionFailed),
        r matches Ok(c) ==> commitment_spec(aux, data, pdata, pcomm, &c),
{
    let a = match data.key0.affine(&data.c, &pcomm.alpha, &pcomm.beta, &pcomm.r) {
        Some(v) => v,
        None => return Err(ProtocolError::EncryptionFailed),
    };
    let b_y = match data.key1.encrypt(&pcomm.beta, &pcomm.r_y) {
        Some(v) => v,
        None => return Err(ProtocolError::EncryptionFailed),
    };
    let commitment = Commitment {
        a,
        b_x: modpow_big(&data.g, &pcomm.alpha, &data.q),
        b_y,
        e: combine(&aux.s, &pcomm.alpha, &aux.t, &pcomm.gamma, &aux.rsa_modulo),
        s: combine(&aux.s, &pdata.x, &aux.t, &pcomm.m, &aux.rsa_modulo),
        f: combine(&aux.s, &pcomm.beta, &aux.t, &pcomm.delta, &aux.rsa_modulo),
        t: combine(&aux.s, &pdata.y, &aux.t, &pcomm.mu, &aux.rsa_modulo),
    };
    Ok(commitment)
}

/// Creates a random commitment.
pub fn commit<R: RngCore>(aux: &Aux, data: &Data, pdata: &PrivateData, mut rng: R) -> (r: Result<
    (Commitment, PrivateCommitment),
    ProtocolError,
>)
    requires
        params_ok(aux, data),
    ensures
        r matches Err(err) ==> err == ProtocolError::SamplingFailed || err == ProtocolError::EncryptionFailed,
        r matches Ok((c, p)) ==> masks_in_range(aux, data, &p) && commitment_spec(
            aux,
            data,
            pdata,
            &p,
            &c,
        ),
{
    let pcomm = match sample_masks(aux, data, &mut rng) {
        Ok(p) => p,
        Err(e) => return Err(e),
    };
    match commit_with(aux, data, pdata, &pcomm) {
        Ok(c) => Ok((c, pcomm)),
        Err(e) => Err(e),
    }
}

/// Computes the response for given data and prior protocol values.
pub fn prove(data: &Data, pdata: &PrivateData, pcomm: &PrivateCommitment, challenge: &Challenge) -> (r:
    Proof)
    requires
        data.key0.n.value() > 0,
        data.key1.n.value() > 0,
    ensures
        proof_spec(data, pdata, pcomm, challenge.value(), &r),
{
    let one = BigNat::from_u64(1);
    Proof {
        z1: add_big(&pcomm.alpha, &mul_big(challenge, &pdata.x)),
        z2: add_big(&pcomm.beta, &mul_big(challenge, &pdata.y)),
        z3: add_big(&pcomm.gamma, &mul_big(challenge, &pcomm.m)),
        z4: add_big(&pcomm.delta, &mul_big(challenge, &pcomm.mu)),
        w: combine(&pcomm.r, &one, &pdata.nonce, challenge, &data.key0.n),
        w_y: combine(&pcomm.r_y, &one, &pdata.nonce_y, challenge, &data.key1.n),
    }
}

/// Verifies the proof: five equality checks and two range checks, reporting
/// the first that fails.
pub fn verify(aux: &Aux, data: &Data, commitment: &Commitment, challenge: &Challenge, proof: &Proof) -> (r:
    Result<(), InvalidProof>)
    requires
        params_ok(aux, data),
    ensures
        r == verify_spec(aux, data, commitment, challenge.value(), proof),
{
    let one = BigNat::from_u64(1);
    let nn0 = data.key0.nn();
    let nn1 = data.key1.nn();
    proof {
        vstd::arithmetic::mul::lemma_mul_strictly_positive(data.key0.n.value() as int, data.key0.n.value() as int);
        vstd::arithmetic::mul::lemma_mul_strictly_positive(data.key1.n.value() as int, data.key1.n.value() as int);
    }
    {
        let lhs = match data.key0.affine(&data.c, &proof.z1, &proof.z2, &proof.w) {
            Some(v) => v,
            None => return Err(InvalidProof::EncryptionFailed),
        };
        let rhs = combine(&commitment.a, &one, &data.d, challenge, &nn0);
        if !eq_big(&lhs, &rhs) {
            return Err(InvalidProof::EqualityCheckFailed(1));
        }
    }
    {
        let lhs = modpow_big(&data.g, &proof.z1, &data.q);
        let rhs = combine(&commitment.b_x, &one, &data.x, challenge, &data.q);
        if !eq_big(&lhs, &rhs) {
            return Err(InvalidProof::EqualityCheckFailed(2));
        }
    }
    {
        let lhs = match data.key1.encrypt(&proof.z2, &proof.w_y) {
            Some(v) => v,
            None => return Err(InvalidProof::EncryptionFailed),
        };
        let rhs = combine(&commitment.b_y, &one, &data.y, challenge, &nn1);
        if !eq_big(&lhs, &rhs) {
            return Err(InvalidProof::EqualityCheckFailed(3));
        }
    }
    {
        let lhs = combine(&aux.s, &proof.z1, &aux.t, &proof.z3, &aux.rsa_modulo);
        let rhs = combine(&commitment.e, &one, &commitment.s, challenge, &aux.rsa_modulo);
        if !eq_big(&lhs, &rhs) {
            return Err(InvalidProof::EqualityCheckFailed(4));
        }
    }
    {
        let lhs = combine(&aux.s, &proof.z2, &aux.t, &proof.z4, &aux.rsa_modulo);
        let rhs = combine(&commitment.f, &one, &commitment.t, challenge, &aux.rsa_modulo);
        if !eq_big(&lhs, &rhs) {
            return Err(InvalidProof::EqualityCheckFailed(5));
        }
    }
    let bound = pow2_big(L + EPSILON);
    if !le_big(&proof.z1, &bound) {
        return Err(InvalidProof::RangeCheckFailed(6));
    }
    let bound_prime = pow2_big(L_PRIME + EPSILON);
    if !le_big(&proof.z2, &bound_prime) {
        return Err(InvalidProof::RangeCheckFailed(7));
    }
    Ok(())
}

/// Deterministically computes the challenge from the public values.
pub fn challenge(aux: &Aux, data: &Data, commitment: &Commitment) -> (r: Challenge)
    ensures
        r.value() == challenge_spec(aux, data, commitment),
        r.value() < pow(256, 64),
{
    let mut buf: Vec<u8> = Vec::new();
    absorb(&mut buf, &aux.s);
    absorb(&mut buf, &aux.t);
    absorb(&mut buf, &aux.rsa_modulo);
    absorb(&mut buf, &data.g);
    absorb(&mut buf, &data.q);
    absorb(&mut buf, &data.key0.n);
    absorb(&mut buf, &data.key1.n);
    absorb(&mut buf, &data.c);
    absorb(&mut buf, &data.d);
    absorb(&mut buf, &data.y);
    absorb(&mut buf, &data.x);
    absorb(&mut buf, &commitment.a);
    absorb(&mut buf, &commitment.b_x);
    absorb(&mut buf, &commitment.b_y);
    absorb(&mut buf, &commitment.e);
    absorb(&mut buf, &commitment.s);
    absorb(&mut buf, &commitment.f);
    absorb(&mut buf, &commitment.t);
    assert(buf@ == transcript(aux, data, commitment));
    let digest = sha512(&buf);
    proof {
        lemma_be_value_bound(digest@);
    }
    BigNat::from_bytes(digest.as_slice())
}

/// Computes a proof for the given data: a random commitment, the challenge
/// derived from it and the response.
pub fn compute_proof<R: RngCore>(aux: &Aux, data: &Data, pdata: &PrivateData, rng: R) -> (r: Result<
    (Commitment, Challenge, Proof),
    ProtocolError,
>)
    requires
        params_ok(aux, data),
    ensures
        r matches Err(err) ==> err == ProtocolError::SamplingFailed || err == ProtocolError::EncryptionFailed,
        r matches Ok((c, e, pf)) ==> e.value() == challenge_spec(aux, data, &c),
        r matches Ok((c, e, pf)) ==> exists|p: PrivateCommitment|
            #![trigger masks_in_range(aux, data, &p)]
            masks_in_range(aux, data, &p) && commitment_spec(aux, data, pdata, &p, &c)
                && proof_spec(data, pdata, &p, e.value(), &pf),
{
    let (comm, pcomm) = match commit(aux, data, pdata, rng) {
        Ok(v) => v,
        Err(e) => return Err(e),
    };
    let challenge = challenge(aux, data, &comm);
    let proof = prove(data, pdata, &pcomm, &challenge);
    assert(masks_in_range(aux, data, &pcomm) && commitment_spec(aux, data, pdata, &pcomm, &comm)
        && proof_spec(data, pdata, &pcomm, challenge.value(), &proof));
    Ok((comm, challenge, proof))
}

} // verus!
