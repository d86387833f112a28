//! Proof that a modulus `N` is a Paillier-Blum integer: a product of two
//! primes each congruent to 3 mod 4 (Πmod of CGGMP21).
//!
//! The prover commits to `w` of Jacobi symbol -1, derives `M` challenges
//! `y_i` from `(N, w)`, and answers each with a fourth root of
//! `(-1)^a * w^b * y_i` and an `N`-th root of `y_i`.
use vstd::prelude::*;
use vstd::arithmetic::power::pow;
use vstd::arithmetic::div_mod::{lemma_mod_mod, lemma_mod_multiples_vanish, lemma_mul_mod_noop};
use rand_core::RngCore;
use crate::bignum::{
    BigNat, minimal_be, be_value, gcd, add_big, sub_big, mul_big, div_big, modpow_big, modmul_big, eq_big,
    invert_big, sample_below,
};
use crate::common::{combine, combine_spec, absorb, sha512, sha512_of, InvalidProof, ProtocolError};
use crate::M;

verus! {

/// Public data: the modulus.
pub struct Data {
    pub n: BigNat,
}

/// Private data of the prover: the factorization of `N`.
pub struct PrivateData {
    pub p: BigNat,
    pub q: BigNat,
}

/// Prover's first message: an element of Jacobi symbol -1.
pub struct Commitment {
    pub w: BigNat,
}

/// The challenges `y_1, ..., y_M`, derived by `challenge`.
pub struct Challenge {
    pub ys: Vec<BigNat>,
}

/// The answer to one challenge.
pub struct ProofPoint {
    /// A fourth root of `(-1)^a * w^b * y`
    pub x: BigNat,
    pub a: bool,
    pub b: bool,
    /// An `N`-th root of `y`
    pub z: BigNat,
}

/// The answers to all challenges, in order.
pub struct Proof {
    pub points: Vec<ProofPoint>,
}

pub open spec fn bit(b: bool) -> nat {
    if b {
        1
    } else {
        0
    }
}

/// `(-1)^a * w^b * y mod n`, with `-1` written as `n - 1`.
pub open spec fn twisted(n: nat, w: nat, y: nat, a: bool, b: bool) -> nat {
    (combine_spec((n - 1) as nat, bit(a), w, bit(b), n) * y) % n
}

/// Euler's criterion: `v^((p-1)/2) mod p`.
pub open spec fn euler(v: nat, p: nat) -> nat {
    (pow(v as int, ((p - 1) as nat) / 2) % (p as int)) as nat
}

/// `w` is a quadratic residue modulo exactly one of `p` and `q`, and
/// invertible modulo both: its Jacobi symbol modulo `p * q` is -1.
pub open spec fn jacobi_minus_one(w: nat, p: nat, q: nat) -> bool {
    ||| euler(w, p) == 1 && euler(w, q) == q - 1
    ||| euler(w, p) == p - 1 && euler(w, q) == 1
}

/// `v^(((p+1)/4)^2) mod p`, a fourth root of `v` modulo a prime `p = 3 mod 4`
/// when `v` is a quadratic residue.
pub open spec fn fourth_root(v: nat, p: nat) -> nat {
    (pow(v as int, ((p + 1) / 4) * ((p + 1) / 4)) % (p as int)) as nat
}

/// The big-endian bytes of a challenge index.
pub open spec fn index_bytes(i: u32) -> Seq<u8> {
    seq![(i >> 24u32) as u8, (i >> 16u32) as u8, (i >> 8u32) as u8, i as u8]
}

/// The `i`-th challenge: SHA-512 of `N`, `w` and the index, modulo `N`.
pub open spec fn challenge_item(n: &BigNat, w: &BigNat, i: u32) -> nat {
    be_value(sha512_of(minimal_be(n.value()) + minimal_be(w.value()) + index_bytes(i))) % n.value()
}

/// The answer to challenge `y` is the one the factorization gives: `(a, b)`
/// make `(-1)^a * w^b * y` a quadratic residue modulo both primes, `x` is its
/// fourth root modulo each prime, and `z = y^d mod N`.
pub open spec fn point_spec(n: nat, p: nat, q: nat, w: nat, y: nat, d: nat, pt: ProofPoint) -> bool {
    let v = twisted(n, w, y, pt.a, pt.b);
    &&& euler(v, p) == 1
    &&& euler(v, q) == 1
    &&& pt.x.value() % p == fourth_root(v, p)
    &&& pt.x.value() % q == fourth_root(v, q)
    &&& pt.z.value() == pow(y as int, d) % (n as int)
}

/// Some twist `(-1)^a * w^b * y` of `y` is a quadratic residue modulo both
/// primes, by Euler's criterion.
pub open spec fn has_residue_twist(n: nat, w: nat, y: nat, p: nat, q: nat) -> bool {
    exists|a: bool, b: bool|
        #![trigger twisted(n, w, y, a, b)]
        euler(twisted(n, w, y, a, b), p) == 1 && euler(twisted(n, w, y, a, b), q) == 1
}

/// The factorization gives the inverses that the roots need: `N` modulo
/// `(p-1)(q-1)`, and each prime modulo the other.
pub open spec fn factors_invertible(n: nat, p: nat, q: nat) -> bool {
    let phi = ((p - 1) as nat) * ((q - 1) as nat);
    &&& phi > 1 && gcd(n, phi) == 1
    &&& gcd(q, p) == 1
    &&& gcd(p, q) == 1
}

/// `d` inverts `N` modulo `(p-1)(q-1)`, so `y^d` is an `N`-th root of `y`.
pub open spec fn root_exponent(n: nat, p: nat, q: nat, d: nat) -> bool {
    (n * d) % (((p - 1) as nat) * ((q - 1) as nat)) == 1
}

/// The verdict on the answers from index `i` on: the first failing check.
pub open spec fn verify_from(n: nat, w: nat, ys: Seq<BigNat>, pts: Seq<ProofPoint>, i: int) -> Result<
    (),
    InvalidProof,
>
    decreases ys.len() - i,
{
    if i < 0 || i >= ys.len() || i >= pts.len() {
        Ok(())
    } else {
        let y = ys[i].value();
        let pt = pts[i];
        if pow(pt.z.value() as int, n) % (n as int) != y {
            Err(InvalidProof::EqualityCheckFailed(1))
        } else if pow(pt.x.value() as int, 4) % (n as int) != twisted(n, w, y, pt.a, pt.b) {
            Err(InvalidProof::EqualityCheckFailed(2))
        } else {
            verify_from(n, w, ys, pts, i + 1)
        }
    }
}

/// The verdict on a proof.
pub open spec fn verify_spec(data: &Data, c: &Commitment, ch: &Challenge, pf: &Proof) -> Result<
    (),
    InvalidProof,
> {
    if ch.ys@.len() != M || pf.points@.len() != M {
        Err(InvalidProof::LengthMismatch)
    } else {
        verify_from(data.n.value(), c.w.value(), ch.ys@, pf.points@, 0)
    }
}

/// Number of draws `commit` makes before giving up.
pub const COMMIT_ATTEMPTS: u32 = 256;

/// Computes Euler's criterion `v^((p-1)/2) mod p`.
fn euler_exec(v: &BigNat, p: &BigNat) -> (r: BigNat)
    requires
        p.value() > 1,
    ensures
        r.value() == euler(v.value(), p.value()),
{
    let one = BigNat::from_u64(1);
    let two = BigNat::from_u64(2);
    let e = div_big(&sub_big(p, &one), &two);
    modpow_big(v, &e, p)
}

/// Accepts a draw `w` as the commitment exactly when its Jacobi symbol
/// modulo `p * q` is -1, telling residues apart by Euler's criterion modulo
/// each prime.
pub fn accept_commitment(w: &BigNat, pdata: &PrivateData) -> (r: bool)
    requires
        pdata.p.value() > 1,
        pdata.q.value() > 1,
    ensures
        r == jacobi_minus_one(w.value(), pdata.p.value(), pdata.q.value()),
{
    let one = BigNat::from_u64(1);
    let p_minus_one = sub_big(&pdata.p, &one);
    let q_minus_one = sub_big(&pdata.q, &one);
    let ep = euler_exec(w, &pdata.p);
    let eq = euler_exec(w, &pdata.q);
    (eq_big(&ep, &one) && eq_big(&eq, &q_minus_one)) || (eq_big(&ep, &p_minus_one) && eq_big(
        &eq,
        &one,
    ))
}

/// Draws `w` below `N` with Jacobi symbol -1.
pub fn commit<R: RngCore>(data: &Data, pdata: &PrivateData, mut rng: R) -> (r: Result<
    Commitment,
    ProtocolError,
>)
    requires
        data.n.value() > 0,
        pdata.p.value() > 1,
        pdata.q.value() > 1,
    ensures
        r matches Ok(c) ==> c.w.value() < data.n.value() && jacobi_minus_one(
            c.w.value(),
            pdata.p.value(),
            pdata.q.value(),
        ),
        r is Err ==> r == Err::<Commitment, ProtocolError>(ProtocolError::SamplingFailed),
{
    let mut attempt: u32 = 0;
    while attempt < COMMIT_ATTEMPTS
        invariant
            data.n.value() > 0,
            pdata.p.value() > 1,
            pdata.q.value() > 1,
        decreases COMMIT_ATTEMPTS - attempt,
    {
        let w = sample_below(&data.n, &mut rng);
        if accept_commitment(&w, pdata) {
            return Ok(Commitment { w });
        }
        attempt = attempt + 1;
    }
    Err(ProtocolError::SamplingFailed)
}

/// Derives the `M` challenges from `N` and `w`.
pub fn challenge(data: &Data, commitment: &Commitment) -> (r: Challenge)
    requires
        data.n.value() > 0,
    ensures
        r.ys@.len() == M,
        forall|i: int|
            0 <= i < M ==> #[trigger] r.ys@[i].value() == challenge_item(
                &data.n,
                &commitment.w,
                i as u32,
            ),
{
    let one = BigNat::from_u64(1);
    let mut ys: Vec<BigNat> = Vec::new();
    let mut i: u32 = 0;
    while i < M as u32
        invariant
            data.n.value() > 0,
            one.value() == 1,
            i <= M,
            ys@.len() == i,
            forall|j: int|
                0 <= j < i ==> #[trigger] ys@[j].value() == challenge_item(
                    &data.n,
                    &commitment.w,
                    j as u32,
                ),
        decreases M - i,
    {
        let mut buf: Vec<u8> = Vec::new();
        absorb(&mut buf, &data.n);
        absorb(&mut buf, &commitment.w);
        buf.push((i >> 24u32) as u8);
        buf.push((i >> 16u32) as u8);
        buf.push((i >> 8u32) as u8);
        buf.push(i as u8);
        assert(buf@ == minimal_be(data.n.value()) + minimal_be(commitment.w.value()) + index_bytes(i));
        let digest = sha512(&buf);
        let y = modmul_big(&BigNat::from_bytes(digest.as_slice()), &one, &data.n);
        ys.push(y);
        i = i + 1;
    }
    Challenge { ys }
}

/// `x mod p` and `x mod q` of the Chinese-remainder combination are the
/// residues it was built from.
proof fn lemma_crt_residue(xp: nat, xq: nat, p: nat, q: nat, ip: nat, iq: nat)
    requires
        p > 1,
        q > 1,
        xp < p,
        (q * iq) % p == 1,
    ensures
        ((xp * q * iq + xq * p * ip) % (p * q)) % p == xp,
{
    let big = xp * q * iq + xq * p * ip;
    lemma_mod_mod(big as int, p as int, q as int);
    assert(xq * p * ip == (xq * ip) * p) by (nonlinear_arith);
    assert(xp * q * iq == xp * (q * iq)) by (nonlinear_arith);
    lemma_mod_multiples_vanish((xq * ip) as int, (xp * (q * iq)) as int, p as int);
    lemma_mul_mod_noop(xp as int, (q * iq) as int, p as int);
    vstd::arithmetic::div_mod::lemma_small_mod(xp, p);
}

/// Computes `(-1)^a * w^b * y mod n`.
fn twist(n: &BigNat, n_minus_one: &BigNat, w: &BigNat, y: &BigNat, a: bool, b: bool) -> (r: BigNat)
    requires
        n.value() > 0,
        n_minus_one.value() == n.value() - 1,
    ensures
        r.value() == twisted(n.value(), w.value(), y.value(), a, b),
{
    let ea = BigNat::from_u64(if a { 1 } else { 0 });
    let eb = BigNat::from_u64(if b { 1 } else { 0 });
    let c = combine(n_minus_one, &ea, w, &eb, n);
    modmul_big(&c, y, n)
}

/// The twist of `y` by `(a, b)` when it is a quadratic residue modulo both
/// primes, by Euler's criterion.
fn residue_twist(
    n: &BigNat,
    n_minus_one: &BigNat,
    w: &BigNat,
    y: &BigNat,
    a: bool,
    b: bool,
    pdata: &PrivateData,
) -> (r: Option<BigNat>)
    requires
        n.value() > 0,
        n_minus_one.value() == n.value() - 1,
        pdata.p.value() > 1,
        pdata.q.value() > 1,
    ensures
        r matches Some(v) ==> v.value() == twisted(n.value(), w.value(), y.value(), a, b) && euler(
            v.value(),
            pdata.p.value(),
        ) == 1 && euler(v.value(), pdata.q.value()) == 1,
        r is None ==> !(euler(twisted(n.value(), w.value(), y.value(), a, b), pdata.p.value()) == 1
            && euler(twisted(n.value(), w.value(), y.value(), a, b), pdata.q.value()) == 1),
{
    let one = BigNat::from_u64(1);
    let v = twist(n, n_minus_one, w, y, a, b);
    if eq_big(&euler_exec(&v, &pdata.p), &one) && eq_big(&euler_exec(&v, &pdata.q), &one) {
        Some(v)
    } else {
        None
    }
}

/// Answers the challenges with roots computed from the factorization. It
/// fails when the factorization does not allow that: `N` not invertible
/// modulo `(p-1)(q-1)`, `p` and `q` not coprime, or a challenge with no
/// residue among its four twists.
pub fn prove(data: &Data, pdata: &PrivateData, commitment: &Commitment, challenge: &Challenge) -> (r:
    Result<Proof, ProtocolError>)
    requires
        pdata.p.value() > 1,
        pdata.q.value() > 1,
        data.n.value() == pdata.p.value() * pdata.q.value(),
    ensures
        r is Err ==> r == Err::<Proof, ProtocolError>(ProtocolError::InvalidModulus),
        r is Err <==> (!factors_invertible(data.n.value(), pdata.p.value(), pdata.q.value()) || exists|
            i: int,
        |
            0 <= i < challenge.ys@.len() && !#[trigger] has_residue_twist(
                data.n.value(),
                commitment.w.value(),
                challenge.ys@[i].value(),
                pdata.p.value(),
                pdata.q.value(),
            )),
        r matches Ok(pf) ==> pf.points@.len() == challenge.ys@.len(),
        r matches Ok(pf) ==> exists|d: nat|
            #![trigger root_exponent(data.n.value(), pdata.p.value(), pdata.q.value(), d)]
            root_exponent(data.n.value(), pdata.p.value(), pdata.q.value(), d) && forall|i: int|
                0 <= i < pf.points@.len() ==> #[trigger] point_spec(
                    data.n.value(),
                    pdata.p.value(),
                    pdata.q.value(),
                    commitment.w.value(),
                    challenge.ys@[i].value(),
                    d,
                    pf.points@[i],
                ),
{
    let ghost n = data.n.value();
    let ghost p = pdata.p.value();
    let ghost q = pdata.q.value();
    let ghost w = commitment.w.value();
    proof {
        vstd::arithmetic::mul::lemma_mul_strictly_positive(p as int, q as int);
    }
    let one = BigNat::from_u64(1);
    let four = BigNat::from_u64(4);
    let phi = mul_big(&sub_big(&pdata.p, &one), &sub_big(&pdata.q, &one));
    let d = match invert_big(&data.n, &phi) {
        Some(v) => v,
        None => return Err(ProtocolError::InvalidModulus),
    };
    let iq = match invert_big(&pdata.q, &pdata.p) {
        Some(v) => v,
        None => return Err(ProtocolError::InvalidModulus),
    };
    let ip = match invert_big(&pdata.p, &pdata.q) {
        Some(v) => v,
        None => return Err(ProtocolError::InvalidModulus),
    };
    let root_p = div_big(&add_big(&pdata.p, &one), &four);
    let exp_p = mul_big(&root_p, &root_p);
    let root_q = div_big(&add_big(&pdata.q, &one), &four);
    let exp_q = mul_big(&root_q, &root_q);
    let n_minus_one = sub_big(&data.n, &one);
    let mut points: Vec<ProofPoint> = Vec::new();
    let mut i: usize = 0;
    while i < challenge.ys.len()
        invariant
            n == data.n.value() && p == pdata.p.value() && q == pdata.q.value() && w
                == commitment.w.value(),
            p > 1 && q > 1 && n == p * q && n > 0,
            one.value() == 1,
            n_minus_one.value() == n - 1,
            root_exponent(n, p, q, d.value()),
            (q * iq.value()) % p == 1,
            (p * ip.value()) % q == 1,
            exp_p.value() == ((p + 1) / 4) * ((p + 1) / 4),
            exp_q.value() == ((q + 1) / 4) * ((q + 1) / 4),
            i <= challenge.ys@.len(),
            points@.len() == i,
            factors_invertible(n, p, q),
            forall|j: int| 0 <= j < i ==> #[trigger] has_residue_twist(n, w, challenge.ys@[j].value(), p, q),
            forall|j: int|
                0 <= j < i ==> #[trigger] point_spec(n, p, q, w, challenge.ys@[j].value(), d.value(), points@[j]),
        decreases challenge.ys@.len() - i,
    {
        let y = &challenge.ys[i];
        let (a, b, v) = match residue_twist(&data.n, &n_minus_one, &commitment.w, y, false, false, pdata) {
            Some(v) => (false, false, v),
            None => match residue_twist(&data.n, &n_minus_one, &commitment.w, y, true, false, pdata) {
                Some(v) => (true, false, v),
                None => match residue_twist(&data.n, &n_minus_one, &commitment.w, y, false, true, pdata) {
                    Some(v) => (false, true, v),
                    None => match residue_twist(&data.n, &n_minus_one, &commitment.w, y, true, true, pdata) {
                        Some(v) => (true, true, v),
                        None => {
                            proof {
                                let yv = y.value();
                                assert forall|a: bool, b: bool|
                                    !(euler(#[trigger] twisted(n, w, yv, a, b), p) == 1 && euler(
                                        twisted(n, w, yv, a, b),
                                        q,
                                    ) == 1) by {
                                    if a {
                                        if b {
                                        } else {
                                        }
                                    } else {
                                        if b {
                                        } else {
                                        }
                                    }
                                }
                                assert(!has_residue_twist(n, w, challenge.ys@[i as int].value(), p, q));
                            }
                            return Err(ProtocolError::InvalidModulus);
                        },
                    },
                },
            },
        };
        let xp = modpow_big(&v, &exp_p, &pdata.p);
        let xq = modpow_big(&v, &exp_q, &pdata.q);
        let sum = add_big(&mul_big(&mul_big(&xp, &pdata.q), &iq), &mul_big(&mul_big(&xq, &pdata.p), &ip));
        let x = modmul_big(&sum, &one, &data.n);
        let z = modpow_big(y, &d, &data.n);
        proof {
            let vp = xp.value();
            let vq = xq.value();
            lemma_crt_residue(vp, vq, p, q, ip.value(), iq.value());
            lemma_crt_residue(vq, vp, q, p, iq.value(), ip.value());
            assert(vp * q * iq.value() + vq * p * ip.value() == vq * p * ip.value() + vp * q * iq.value());
            assert(q * p == p * q) by (nonlinear_arith);
        }
        let pt = ProofPoint { x, a, b, z };
        proof {
            assert(point_spec(n, p, q, w, y.value(), d.value(), pt));
            assert(euler(twisted(n, w, y.value(), a, b), p) == 1);
            assert(has_residue_twist(n, w, challenge.ys@[i as int].value(), p, q));
        }
        points.push(pt);
        i = i + 1;
    }
    let proof_value = Proof { points };
    assert(root_exponent(n, p, q, d.value()));
    Ok(proof_value)
}

/// Verifies the answers to all `M` challenges: `z^N = y` and
/// `x^4 = (-1)^a * w^b * y` modulo `N`, reporting the first that fails.
pub fn verify(data: &Data, commitment: &Commitment, challenge: &Challenge, proof: &Proof) -> (r: Result<
    (),
    InvalidProof,
>)
    requires
        data.n.value() > 0,
    ensures
        r == verify_spec(data, commitment, challenge, proof),
{
    if challenge.ys.len() != M || proof.points.len() != M {
        return Err(InvalidProof::LengthMismatch);
    }
    let one = BigNat::from_u64(1);
    let four = BigNat::from_u64(4);
    let n_minus_one = sub_big(&data.n, &one);
    let mut i: usize = 0;
    while i < M
        invariant
            data.n.value() > 0,
            n_minus_one.value() == data.n.value() - 1,
            four.value() == 4,
            challenge.ys@.len() == M,
            proof.points@.len() == M,
            i <= M,
            verify_spec(data, commitment, challenge, proof) == verify_from(
                data.n.value(),
                commitment.w.value(),
                challenge.ys@,
                proof.points@,
                i as int,
            ),
        decreases M - i,
    {
        let y = &challenge.ys[i];
        let pt = &proof.points[i];
        let lhs = modpow_big(&pt.z, &data.n, &data.n);
        if !eq_big(&lhs, y) {
            return Err(InvalidProof::EqualityCheckFailed(1));
        }
        let lhs = modpow_big(&pt.x, &four, &data.n);
        let rhs = twist(&data.n, &n_minus_one, &commitment.w, y, pt.a, pt.b);
        if !eq_big(&lhs, &rhs) {
            return Err(InvalidProof::EqualityCheckFailed(2));
        }
        i = i + 1;
    }
    Ok(())
}

/// Computes a proof for the modulus: a random commitment, the challenges
/// derived from it and the answers.
pub fn compute_proof<R: RngCore>(data: &Data, pdata: &PrivateData, rng: R) -> (r: Result<
    (Commitment, Challenge, Proof),
    ProtocolError,
>)
    requires
        pdata.p.value() > 1,
        pdata.q.value() > 1,
        data.n.value() == pdata.p.value() * pdata.q.value(),
    ensures
        r matches Ok((c, ch, pf)) ==> {
            &&& c.w.value() < data.n.value()
            &&& jacobi_minus_one(c.w.value(), pdata.p.value(), pdata.q.value())
            &&& ch.ys@.len() == M
            &&& pf.points@.len() == M
            &&& forall|i: int|
                0 <= i < M ==> #[trigger] ch.ys@[i].value() == challenge_item(&data.n, &c.w, i as u32)
        },
        r matches Ok((c, ch, pf)) ==> exists|d: nat|
            #![trigger root_exponent(data.n.value(), pdata.p.value(), pdata.q.value(), d)]
            root_exponent(data.n.value(), pdata.p.value(), pdata.q.value(), d) && forall|i: int|
                0 <= i < M ==> #[trigger] point_spec(
                    data.n.value(),
                    pdata.p.value(),
                    pdata.q.value(),
                    c.w.value(),
                    ch.ys@[i].value(),
                    d,
                    pf.points@[i],
                ),
        r matches Err(err) ==> err == ProtocolError::SamplingFailed || err == ProtocolError::InvalidModulus,
{
    proof {
        vstd::arithmetic::mul::lemma_mul_strictly_positive(pdata.p.value() as int, pdata.q.value() as int);
    }
    let commitment = match commit(data, pdata, rng) {
        Ok(c) => c,
        Err(e) => return Err(e),
    };
    let challenge = challenge(data, &commitment);
    let proof = match prove(data, pdata, &commitment, &challenge) {
        Ok(pf) => pf,
        Err(e) => return Err(e),
    };
    Ok((commitment, challenge, proof))
}

} // verus!
