//! Proof that a Paillier plaintext is the discrete logarithm of a curve
//! point and is at most `L` bits (Πlog* of CGGMP21).
//!
//! Given a Paillier key `key0`, a ciphertext `C = key0.encrypt(x)` and a
//! point `X = x * G`, the prover shows that `decrypt(C) = log X` and
//! `bitsize(x) <= L`, disclosing only `key0`, `C` and `X`.
//!
//! Points are carried as their compressed encodings; the curve is chosen by
//! the type parameter of the functions that compute on points.
use vstd::prelude::*;
use vstd::arithmetic::power::pow;
use rand_core::RngCore;
use generic_ec::Curve;
use generic_ec_core::hash_to_curve::HashToCurve;
use crate::bignum::{BigNat, minimal_be, gcd, add_big, mul_big, le_big, eq_big, pow2_big, sample_below};
use crate::common::{
    lemma_encrypt_homomorphic, lemma_ring_pedersen_complete, combine, combine_spec, encrypt_opt, gen_inversible, EncryptionKey, InvalidProof, ProtocolError,
};
use crate::curve::{generator_mul, add_scaled, hash_to_scalar};
use crate::{EPSILON, L};

pub use crate::common::Aux;

verus! {

/// Public data that both parties know.
pub struct Data {
    /// The key that `c` is encrypted with
    pub key0: EncryptionKey,
    /// Encryption of `x` under `key0`
    pub c: BigNat,
    /// Compressed encoding of the point `x * G`
    pub x: Vec<u8>,
}

/// Private data of the prover.
pub struct PrivateData {
    /// The plaintext
    pub x: BigNat,
    /// The nonce that `c` was encrypted with
    pub nonce: BigNat,
}

/// Prover's first message, obtained by `commit`.
pub struct Commitment {
    pub s: BigNat,
    pub a: BigNat,
    /// Compressed encoding of `alpha * G`
    pub y: Vec<u8>,
    pub d: BigNat,
}

/// Prover's secret masks accompanying the commitment.
pub struct PrivateCommitment {
    pub alpha: BigNat,
    pub mu: BigNat,
    pub r: BigNat,
    pub gamma: BigNat,
}

/// Verifier's challenge, derived from the transcript by `challenge`.
pub type Challenge = BigNat;

/// The response, computed by `prove`.
pub struct Proof {
    pub z1: BigNat,
    pub z2: BigNat,
    pub z3: BigNat,
}

/// The moduli are positive, so that every modular operation is defined.
pub open spec fn params_ok(aux: &Aux, data: &Data) -> bool {
    &&& aux.rsa_modulo.value() > 0
    &&& data.key0.n.value() > 0
}

/// The masks lie in the ranges that the protocol draws them from.
pub open spec fn masks_in_range(aux: &Aux, data: &Data, p: &PrivateCommitment) -> bool {
    let nhat = aux.rsa_modulo.value();
    &&& p.alpha.value() < pow(2, (L + EPSILON) as nat)
    &&& p.mu.value() < pow(2, L as nat) * nhat
    &&& p.r.value() < data.key0.n.value() && gcd(p.r.value(), data.key0.n.value()) == 1
    &&& p.gamma.value() < pow(2, (L + EPSILON) as nat) * nhat
}

/// The Ring-Pedersen and Paillier parts of the commitment are the ones that
/// the masks determine.
pub open spec fn commitment_spec(
    aux: &Aux,
    data: &Data,
    pdata: &PrivateData,
    p: &PrivateCommitment,
    c: &Commitment,
) -> bool {
    let s = aux.s.value();
    let t = aux.t.value();
    let nhat = aux.rsa_modulo.value();
    &&& c.s.value() == combine_spec(s, pdata.x.value(), t, p.mu.value(), nhat)
    &&& encrypt_opt(data.key0.n.value(), p.alpha.value(), p.r.value()) == Some(c.a.value())
    &&& c.d.value() == combine_spec(s, p.alpha.value(), t, p.gamma.value(), nhat)
}

/// The response to challenge `e`.
pub open spec fn proof_spec(
    data: &Data,
    pdata: &PrivateData,
    p: &PrivateCommitment,
    e: nat,
    pf: &Proof,
) -> bool {
    &&& pf.z1.value() == p.alpha.value() + e * pdata.x.value()
    &&& pf.z2.value() == combine_spec(p.r.value(), 1, pdata.nonce.value(), e, data.key0.n.value())
    &&& pf.z3.value() == p.gamma.value() + e * p.mu.value()
}

/// The byte strings hashed into the challenge, in their fixed order.
pub open spec fn transcript(aux: &Aux, data: &Data, c: &Commitment) -> Seq<Seq<u8>> {
    seq![
        minimal_be(aux.s.value()),
        minimal_be(aux.t.value()),
        minimal_be(aux.rsa_modulo.value()),
        minimal_be(data.key0.n.value()),
        minimal_be(data.c.value()),
        data.x@,
        minimal_be(c.s.value()),
        minimal_be(c.a.value()),
        c.y@,
        minimal_be(c.d.value()),
    ]
}

/// The verdict on a proof, given the outcome of the curve check
/// `z1 * G == Y + e * X`: the first check that fails, in order.
pub open spec fn verify_spec(
    aux: &Aux,
    data: &Data,
    c: &Commitment,
    e: nat,
    pf: &Proof,
    curve_ok: bool,
) -> Result<(), InvalidProof> {
    let n0 = data.key0.n.value();
    let s = aux.s.value();
    let t = aux.t.value();
    let nhat = aux.rsa_modulo.value();
    match encrypt_opt(n0, pf.z1.value(), pf.z2.value()) {
        None => Err(InvalidProof::EncryptionFailed),
        Some(lhs1) => if lhs1 != combine_spec(c.a.value(), 1, data.c.value(), e, n0 * n0) {
            Err(InvalidProof::EqualityCheckFailed(1))
        } else if !curve_ok {
            Err(InvalidProof::EqualityCheckFailed(2))
        } else if combine_spec(s, pf.z1.value(), t, pf.z3.value(), nhat) != combine_spec(
            c.d.value(),
            1,
            c.s.value(),
            e,
            nhat,
        ) {
            Err(InvalidProof::EqualityCheckFailed(3))
        } else if pf.z1.value() > pow(2, (L + EPSILON) as nat) {
            Err(InvalidProof::RangeCheckFailed(4))
        } else {
            Ok(())
        }
    }
}

/// A plaintext above `2^(L+EPSILON)` is never accepted: whatever the
/// masks and the outcome of the curve check, a response to a non-zero
/// challenge fails some check.
pub proof fn lemma_range_soundness(
    aux: &Aux,
    data: &Data,
    pdata: &PrivateData,
    p: &PrivateCommitment,
    c: &Commitment,
    e: nat,
    pf: &Proof,
    curve_ok: bool,
)
    requires
        proof_spec(data, pdata, p, e, pf),
        e >= 1,
        pdata.x.value() > pow(2, (L + EPSILON) as nat),
    ensures
        verify_spec(aux, data, c, e, pf, curve_ok) != Ok::<(), InvalidProof>(()),
{
    assert(e * pdata.x.value() >= pdata.x.value()) by (nonlinear_arith)
        requires
            e >= 1,
    ;
}

/// An honest prover passes the Ring-Pedersen check: the commitment and the
/// response built from the same masks satisfy `s^z1 t^z3 = D S^e (mod N^)`.
pub proof fn lemma_ring_pedersen_check_passes(
    aux: &Aux,
    data: &Data,
    pdata: &PrivateData,
    p: &PrivateCommitment,
    c: &Commitment,
    e: nat,
    pf: &Proof,
)
    requires
        params_ok(aux, data),
        commitment_spec(aux, data, pdata, p, c),
        proof_spec(data, pdata, p, e, pf),
    ensures
        combine_spec(aux.s.value(), pf.z1.value(), aux.t.value(), pf.z3.value(), aux.rsa_modulo.value())
            == combine_spec(c.d.value(), 1, c.s.value(), e, aux.rsa_modulo.value()),
{
    lemma_ring_pedersen_complete(
        aux.s.value(),
        aux.t.value(),
        aux.rsa_modulo.value(),
        p.alpha.value(),
        p.gamma.value(),
        pdata.x.value(),
        p.mu.value(),
        e,
    );
}

/// An honest proof passes: when the ciphertext encrypts the witness, and
/// the commitment and the response come from the same masks, verification
/// succeeds (given that the curve check holds) on every challenge for which the first response is a
/// Paillier message below `2^(L+EPSILON)` and the second is not zero.
pub proof fn lemma_honest_proof_passes(
    aux: &Aux,
    data: &Data,
    pdata: &PrivateData,
    p: &PrivateCommitment,
    c: &Commitment,
    e: nat,
    pf: &Proof,
)
    requires
        params_ok(aux, data),
        encrypt_opt(data.key0.n.value(), pdata.x.value(), pdata.nonce.value()) == Some(
            data.c.value(),
        ),
        commitment_spec(aux, data, pdata, p, c),
        proof_spec(data, pdata, p, e, pf),
        pf.z1.value() < data.key0.n.value(),
        pf.z1.value() <= pow(2, (L + EPSILON) as nat),
        pf.z2.value() != 0,
    ensures
        verify_spec(aux, data, c, e, pf, true) == Ok::<(), InvalidProof>(()),
{
    let n = data.key0.n.value();
    lemma_encrypt_homomorphic(n, p.alpha.value(), p.r.value(), pdata.x.value(), pdata.nonce.value(), e);
    vstd::arithmetic::mul::lemma_mul_strictly_positive(n as int, n as int);
    assert(pf.z2.value() < n);
    lemma_ring_pedersen_check_passes(aux, data, pdata, p, c, e, pf);
}

/// Draws fresh masks from their ranges.
pub fn sample_masks<R: RngCore>(aux: &Aux, data: &Data, rng: &mut R) -> (r: Result<
    PrivateCommitment,
    ProtocolError,
>)
    requires
        params_ok(aux, data),
    ensures
        r matches Ok(p) ==> masks_in_range(aux, data, &p),
        r is Err ==> r == Err::<PrivateCommitment, ProtocolError>(ProtocolError::SamplingFailed),
{
    let two_to_l = pow2_big(L);
    let two_to_l_e = pow2_big(L + EPSILON);
    let modulo_l = mul_big(&two_to_l, &aux.rsa_modulo);
    let modulo_l_e = mul_big(&two_to_l_e, &aux.rsa_modulo);
    proof {
        vstd::arithmetic::power::lemma_pow_positive(2, L as nat);
        vstd::arithmetic::power::lemma_pow_positive(2, (L + EPSILON) as nat);
        vstd::arithmetic::mul::lemma_mul_strictly_positive(pow(2, L as nat), aux.rsa_modulo.value() as int);
        vstd::arithmetic::mul::lemma_mul_strictly_positive(pow(2, (L + EPSILON) as nat), aux.rsa_modulo.value() as int);
    }
    let alpha = sample_below(&two_to_l_e, rng);
    let mu = sample_below(&modulo_l, rng);
    let r = match gen_inversible(&data.key0.n, rng) {
        Some(v) => v,
        None => return Err(ProtocolError::SamplingFailed),
    };
    let gamma = sample_below(&modulo_l_e, rng);
    Ok(PrivateCommitment { alpha, mu, r, gamma })
}

/// Builds the commitment from given masks and the encoding `y` of
/// `alpha * G`. It fails exactly when the encryption of `alpha` does.
pub fn commit_with(
    aux: &Aux,
    data: &Data,
    pdata: &PrivateData,
    pcomm: &PrivateCommitment,
    y: Vec<u8>,
) -> (r: Result<Commitment, ProtocolError>)
    requires
        params_ok(aux, data),
    ensures
        r is Ok <==> encrypt_opt(data.key0.n.value(), pcomm.alpha.value(), pcomm.r.value()) is Some,
        r is Err ==> r == Err::<Commitment, ProtocolError>(ProtocolError::EncryptionFailed),
        r matches Ok(c) ==> commitment_spec(aux, data, pdata, pcomm, &c) && c.y@ == y@,
{
    let a = match data.key0.encrypt(&pcomm.alpha, &pcomm.r) {
        Some(v) => v,
        None => return Err(ProtocolError::EncryptionFailed),
    };
    Ok(Commitment {
        s: combine(&aux.s, &pdata.x, &aux.t, &pcomm.mu, &aux.rsa_modulo),
        a,
        y,
        d: combine(&aux.s, &pcomm.alpha, &aux.t, &pcomm.gamma, &aux.rsa_modulo),
    })
}

/// Creates a random commitment on the curve `E`.
pub fn commit<E: Curve, R: RngCore>(aux: &Aux, data: &Data, pdata: &PrivateData, mut rng: R) -> (r:
    Result<(Commitment, PrivateCommitment), ProtocolError>)
    requires
        params_ok(aux, data),
    ensures
        r matches Err(err) ==> err == ProtocolError::SamplingFailed || err == ProtocolError::EncryptionFailed,
        r matches Ok((c, p)) ==> masks_in_range(aux, data, &p) && commitment_spec(
            aux,
            data,
            pdata,
            &p,
            &c,
        ),
{
    let pcomm = match sample_masks(aux, data, &mut rng) {
        Ok(p) => p,
        Err(e) => return Err(e),
    };
    let y = generator_mul::<E>(&pcomm.alpha);
    match commit_with(aux, data, pdata, &pcomm, y) {
        Ok(c) => Ok((c, pcomm)),
        Err(e) => Err(e),
    }
}

/// The byte strings that the challenge hashes, in their fixed order.
pub fn transcript_parts(aux: &Aux, data: &Data, commitment: &Commitment) -> (r: Vec<Vec<u8>>)
    ensures
        r@.len() == 10,
        forall|i: int| 0 <= i < 10 ==> #[trigger] r@[i]@ == transcript(aux, data, commitment)[i],
{
    let mut parts: Vec<Vec<u8>> = Vec::new();
    parts.push(aux.s.to_bytes());
    parts.push(aux.t.to_bytes());
    parts.push(aux.rsa_modulo.to_bytes());
    parts.push(data.key0.n.to_bytes());
    parts.push(data.c.to_bytes());
    parts.push(data.x.clone());
    parts.push(commitment.s.to_bytes());
    parts.push(commitment.a.to_bytes());
    parts.push(commitment.y.clone());
    parts.push(commitment.d.to_bytes());
    parts
}

/// Deterministically derives the challenge: the transcript hashed to a
/// scalar of `E` under `tag`, read as a big-endian number. An empty tag
/// fails.
pub fn challenge<E: Curve + HashToCurve>(
    tag: &[u8],
    aux: &Aux,
    data: &Data,
    commitment: &Commitment,
) -> (r: Result<Challenge, ProtocolError>)
    ensures
        r is Err ==> r == Err::<Challenge, ProtocolError>(ProtocolError::HashFailed),
        tag@.len() == 0 ==> r is Err,
{
    let parts = transcript_parts(aux, data, commitment);
    match hash_to_scalar::<E>(tag, &parts) {
        Some(bytes) => Ok(BigNat::from_bytes(bytes.as_slice())),
        None => Err(ProtocolError::HashFailed),
    }
}

/// Computes the response for given data and prior protocol values.
pub fn prove(data: &Data, pdata: &PrivateData, pcomm: &PrivateCommitment, challenge: &Challenge) -> (r:
    Proof)
    requires
        data.key0.n.value() > 0,
    ensures
        proof_spec(data, pdata, pcomm, challenge.value(), &r),
{
    let one = BigNat::from_u64(1);
    Proof {
        z1: add_big(&pcomm.alpha, &mul_big(challenge, &pdata.x)),
        z2: combine(&pcomm.r, &one, &pdata.nonce, challenge, &data.key0.n),
        z3: add_big(&pcomm.gamma, &mul_big(challenge, &pcomm.mu)),
    }
}

/// Verifies the proof given the outcome of the curve check: three equality
/// checks and one range check, reporting the first that fails.
pub fn verify_given_curve_check(
    aux: &Aux,
    data: &Data,
    commitment: &Commitment,
    challenge: &Challenge,
    proof: &Proof,
    curve_ok: bool,
) -> (r: Result<(), InvalidProof>)
    requires
        params_ok(aux, data),
    ensures
        r == verify_spec(aux, data, commitment, challenge.value(), proof, curve_ok),
{
    let one = BigNat::from_u64(1);
    let nn0 = data.key0.nn();
    proof {
        vstd::arithmetic::mul::lemma_mul_strictly_positive(data.key0.n.value() as int, data.key0.n.value() as int);
    }
    {
        let lhs = match data.key0.encrypt(&proof.z1, &proof.z2) {
            Some(v) => v,
            None => return Err(InvalidProof::EncryptionFailed),
        };
        let rhs = combine(&commitment.a, &one, &data.c, challenge, &nn0);
        if !eq_big(&lhs, &rhs) {
            return Err(InvalidProof::EqualityCheckFailed(1));
        }
    }
    if !curve_ok {
        return Err(InvalidProof::EqualityCheckFailed(2));
    }
    {
        let lhs = combine(&aux.s, &proof.z1, &aux.t, &proof.z3, &aux.rsa_modulo);
        let rhs = combine(&commitment.d, &one, &commitment.s, challenge, &aux.rsa_modulo);
        if !eq_big(&lhs, &rhs) {
            return Err(InvalidProof::EqualityCheckFailed(3));
        }
    }
    let bound = pow2_big(L + EPSILON);
    if !le_big(&proof.z1, &bound) {
        return Err(InvalidProof::RangeCheckFailed(4));
    }
    Ok(())
}

/// Whether `z1 * G == Y + e * X` holds on the curve `E`; an encoding that
/// is not a point fails the check.
pub fn curve_check<E: Curve>(data: &Data, commitment: &Commitment, challenge: &Challenge, proof: &Proof) -> bool {
    let lhs = generator_mul::<E>(&proof.z1);
    match add_scaled::<E>(&commitment.y, &data.x, challenge) {
        Some(rhs) => lhs == rhs,
        None => false,
    }
}

/// Verifies the proof on the curve `E`. Every check but the one on the curve
/// is decided as `verify_spec` states.
pub fn verify<E: Curve>(
    aux: &Aux,
    data: &Data,
    commitment: &Commitment,
    challenge: &Challenge,
    proof: &Proof,
) -> (r: Result<(), InvalidProof>)
    requires
        params_ok(aux, data),
    ensures
        r == verify_spec(aux, data, commitment, challenge.value(), proof, true) || r == verify_spec(
            aux,
            data,
            commitment,
            challenge.value(),
            proof,
            false,
        ),
{
    let curve_ok = curve_check::<E>(data, commitment, challenge, proof);
    verify_given_curve_check(aux, data, commitment, challenge, proof, curve_ok)
}

/// Computes a proof for the given data: a random commitment, the challenge
/// derived from it and the response.
pub fn compute_proof<E: Curve + HashToCurve, R: RngCore>(
    tag: &[u8],
    aux: &Aux,
    data: &Data,
    pdata: &PrivateData,
    rng: R,
) -> (r: Result<(Commitment, Challenge, Proof), ProtocolError>)
    requires
        params_ok(aux, data),
    ensures
        r matches Err(err) ==> err == ProtocolError::SamplingFailed || err == ProtocolError::EncryptionFailed
            || err == ProtocolError::HashFailed,
        r matches Ok((c, e, pf)) ==> exists|p: PrivateCommitment|
            #![trigger masks_in_range(aux, data, &p)]
            masks_in_range(aux, data, &p) && commitment_spec(aux, data, pdata, &p, &c)
                && proof_spec(data, pdata, &p, e.value(), &pf),
        tag@.len() == 0 ==> r is Err,
{
    let (comm, pcomm) = match commit::<E, R>(aux, data, pdata, rng) {
        Ok(v) => v,
        Err(e) => return Err(e),
    };
    let challenge = match challenge::<E>(tag, aux, data, &comm) {
        Ok(e) => e,
        Err(e) => return Err(e),
    };
    let proof = prove(data, pdata, &pcomm, &challenge);
    assert(masks_in_range(aux, data, &pcomm) && commitment_spec(aux, data, pdata, &pcomm, &comm)
        && proof_spec(data, pdata, &pcomm, challenge.value(), &proof));
    Ok((comm, challenge, proof))
}

} // verus!
