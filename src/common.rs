//! Building blocks shared by the proofs: errors, Ring-Pedersen parameters,
//! Paillier encryption and the dual exponentiation `combine`.
use vstd::prelude::*;
use vstd::arithmetic::power::pow;
use vstd::arithmetic::div_mod::{lemma_mod_mod, lemma_mod_multiples_vanish, lemma_mul_mod_noop};
use vstd::arithmetic::power::{lemma_pow1, lemma_pow_adds, lemma_pow_distributes, lemma_pow_mod_noop, lemma_pow_multiplies};
use libpaillier::unknown_order::BigNumber;
use rand_core::RngCore;
use sha2::Digest;
use crate::bignum::{BigNat, minimal_be, gcd, modpow_big, modmul_big, mul_big, gcd_big, eq_big, sample_below};

verus! {

/// Failure while producing a proof.
#[derive(Debug, Clone, Copy, PartialEq, Eq, Structural)]
pub enum ProtocolError {
    /// The Paillier primitive rejected its inputs.
    EncryptionFailed,
    /// Hashing the transcript to a scalar failed.
    HashFailed,
    /// No suitable random element was found within the allowed number of
    /// draws.
    SamplingFailed,
    /// The given factorization does not make the modulus a Paillier-Blum
    /// integer.
    InvalidModulus,
}

/// Reason a proof was rejected: the index of the first failing check.
#[derive(Debug, Clone, Copy, PartialEq, Eq, Structural)]
pub enum InvalidProof {
    /// The algebraic identity with this index does not hold.
    EqualityCheckFailed(usize),
    /// The bit-length bound with this index does not hold.
    RangeCheckFailed(usize),
    /// The Paillier primitive rejected a response.
    EncryptionFailed,
    /// The proof or the challenge does not hold the expected number of items.
    LengthMismatch,
}

/// Ring-Pedersen parameters known to both prover and verifier.
pub struct Aux {
    /// ring-pedersen parameter
    pub s: BigNat,
    /// ring-pedersen parameter
    pub t: BigNat,
    /// N^ in the paper
    pub rsa_modulo: BigNat,
}

/// `a^x * b^y mod m`.
pub open spec fn combine_spec(a: nat, x: nat, b: nat, y: nat, m: nat) -> nat
    recommends
        m > 0,
{
    ((pow(a as int, x) * pow(b as int, y)) % (m as int)) as nat
}

/// Computes `a^x * b^y mod m`.
pub fn combine(a: &BigNat, x: &BigNat, b: &BigNat, y: &BigNat, m: &BigNat) -> (r: BigNat)
    requires
        m.value() > 0,
    ensures
        r.value() == combine_spec(a.value(), x.value(), b.value(), y.value(), m.value()),
{
    let ax = modpow_big(a, x, m);
    let by = modpow_big(b, y, m);
    let r = modmul_big(&ax, &by, m);
    proof {
        lemma_mul_mod_noop(pow(a.value() as int, x.value()), pow(b.value() as int, y.value()), m.value() as int);
    }
    r
}

/// An honest Ring-Pedersen response passes its check: with commitments
/// `E = s^alpha t^gamma` and `S = s^x t^m` modulo `N^`, the responses
/// `z = alpha + e x` and `z' = gamma + e m` satisfy
/// `s^z t^z' = E S^e (mod N^)`.
pub proof fn lemma_ring_pedersen_complete(
    s: nat,
    t: nat,
    nhat: nat,
    alpha: nat,
    gamma: nat,
    x: nat,
    m: nat,
    e: nat,
)
    requires
        nhat > 0,
    ensures
        combine_spec(s, alpha + e * x, t, gamma + e * m, nhat) == combine_spec(
            combine_spec(s, alpha, t, gamma, nhat),
            1,
            combine_spec(s, x, t, m, nhat),
            e,
            nhat,
        ),
{
    let n = nhat as int;
    let sa = pow(s as int, alpha);
    let tg = pow(t as int, gamma);
    let sx = pow(s as int, x);
    let tm = pow(t as int, m);
    let sex = pow(s as int, x * e);
    let tem = pow(t as int, m * e);
    assert(e * x == x * e) by (nonlinear_arith);
    assert(e * m == m * e) by (nonlinear_arith);
    lemma_pow_adds(s as int, alpha, x * e);
    lemma_pow_adds(t as int, gamma, m * e);
    let e0 = sa * tg;
    let s0 = sx * tm;
    let big_e = e0 % n;
    let big_s = s0 % n;
    lemma_pow1(big_e);
    lemma_pow_mod_noop(s0, e, n);
    lemma_pow_distributes(sx, tm, e);
    lemma_pow_multiplies(s as int, x, e);
    lemma_pow_multiplies(t as int, m, e);
    let pse = pow(big_s, e);
    assert(pse % n == (sex * tem) % n);
    lemma_mul_mod_noop(big_e, pse, n);
    lemma_mul_mod_noop(e0, sex * tem, n);
    lemma_mod_mod(e0, n, 1);
    assert(big_e % n == e0 % n);
    assert((big_e * pse) % n == (e0 * (sex * tem)) % n);
    assert(sa * sex * (tg * tem) == e0 * (sex * tem)) by (nonlinear_arith)
        requires
            e0 == sa * tg,
    ;
}

/// `(r + q n)^k = r^(k-1) (r + k q n) + t n^2` for some `t`, returned.
proof fn lemma_binomial_prefix(r: int, q: int, n: int, k: nat) -> (t: int)
    requires
        k >= 1,
    ensures
        pow(r + q * n, k) == pow(r, (k - 1) as nat) * (r + k * q * n) + t * (n * n),
    decreases k,
{
    vstd::arithmetic::power::lemma_pow0(r);
    if k == 1 {
        lemma_pow1(r + q * n);
        0
    } else {
        let k1 = (k - 1) as nat;
        let t0 = lemma_binomial_prefix(r, q, n, k1);
        let b = pow(r, (k1 - 1) as nat);
        lemma_pow_adds(r + q * n, k1, 1);
        lemma_pow1(r + q * n);
        lemma_pow_adds(r, (k1 - 1) as nat, 1);
        lemma_pow1(r);
        assert(((k1 - 1) as nat + 1) as nat == k1);
        let t1 = b * k1 * q * q + (r + q * n) * t0;
        let u = r + q * n;
        let m = q * n;
        assert(k1 * q * n == k1 * m && k * q * n == k * m) by (nonlinear_arith)
            requires
                m == q * n,
        ;
        let f = (r + k1 * m) * (r + m);
        assert(f == r * (r + k * m) + k1 * (m * m)) by (nonlinear_arith)
            requires
                k == k1 + 1,
                f == (r + k1 * m) * (r + m),
        ;
        vstd::arithmetic::mul::lemma_mul_is_associative(b, r + k1 * m, r + m);
        vstd::arithmetic::mul::lemma_mul_is_distributive_add(b, r * (r + k * m), k1 * (m * m));
        vstd::arithmetic::mul::lemma_mul_is_associative(b, r, r + k * m);
        vstd::arithmetic::mul::lemma_mul_is_associative(b, k1 as int, m * m);
        assert(b * (r + k1 * m) * (r + m) == b * r * (r + k * m) + b * k1 * (m * m));
        assert(b * k1 * (m * m) == b * k1 * q * q * (n * n)) by (nonlinear_arith)
            requires
                m == q * n,
        ;
        assert((b * (r + k1 * q * n) + t0 * (n * n)) * u == b * (r + k1 * q * n) * u + u * t0 * (n
            * n)) by (nonlinear_arith);
        assert(b * k1 * q * q * (n * n) + u * t0 * (n * n) == t1 * (n * n)) by (nonlinear_arith)
            requires
                t1 == b * k1 * q * q + u * t0,
        ;
        assert(pow(r, k1) == b * r);
        assert(pow(u, k) == pow(u, k1) * u);
        t1
    }
}

/// Reducing the base modulo `n` keeps its `n`-th power modulo `n^2`.
proof fn lemma_pow_n_mod_n_squared(a: nat, n: nat)
    requires
        n > 0,
    ensures
        pow((a % n) as int, n) % ((n * n) as int) == pow(a as int, n) % ((n * n) as int),
{
    let r = (a % n) as int;
    let q = (a / n) as int;
    vstd::arithmetic::div_mod::lemma_fundamental_div_mod(a as int, n as int);
    assert(a as int == r + q * n) by (nonlinear_arith)
        requires
            a as int == n * q + r,
    ;
    let t = lemma_binomial_prefix(r, q, n as int, n);
    let b = pow(r, (n - 1) as nat);
    lemma_pow_adds(r, (n - 1) as nat, 1);
    lemma_pow1(r);
    assert((n - 1) as nat + 1 == n);
    assert(b * (r + n * q * n) + t * (n * n) == (n * n) * (b * q + t) + b * r) by (nonlinear_arith);
    vstd::arithmetic::mul::lemma_mul_strictly_positive(n as int, n as int);
    lemma_mod_multiples_vanish(b * q + t, b * r, (n * n) as int);
    assert(pow(r, n) == b * r);
}

/// Paillier encryption is homomorphic for the responses of the range
/// proofs: `enc(alpha + e k; r rho^e mod n) = enc(alpha; r) enc(k; rho)^e`
/// modulo `n^2`.
pub proof fn lemma_encrypt_homomorphic(n: nat, alpha: nat, r: nat, k: nat, rho: nat, e: nat)
    requires
        n > 0,
        rho > 0,
    ensures
        encrypt_spec(n, alpha + e * k, combine_spec(r, 1, rho, e, n)) == combine_spec(
            encrypt_spec(n, alpha, r),
            1,
            encrypt_spec(n, k, rho),
            e,
            n * n,
        ),
{
    let nn = (n * n) as int;
    vstd::arithmetic::mul::lemma_mul_strictly_positive(n as int, n as int);
    let g = (n + 1) as int;
    let ga = pow(g, alpha);
    let gk = pow(g, k);
    let gke = pow(g, k * e);
    let rn = pow(r as int, n);
    let rhoe = pow(rho as int, e);
    let rhon = pow(rho as int, n);
    let rhone = pow(rho as int, n * e);
    lemma_pow1(r as int);
    // left side
    let z2 = combine_spec(r, 1, rho, e, n);
    vstd::arithmetic::power::lemma_pow_positive(rho as int, e);
    vstd::arithmetic::mul::lemma_mul_nonnegative(r as int, rhoe);
    let prod = (r * rhoe) as nat;
    assert(prod as int == r * rhoe);
    assert(z2 == prod % n);
    lemma_pow_n_mod_n_squared(prod, n);
    lemma_pow_distributes(r as int, rhoe, n);
    assert(pow(prod as int, n) == rn * pow(rhoe, n));
    lemma_pow_multiplies(rho as int, e, n);
    lemma_pow_multiplies(rho as int, n, e);
    assert(e * n == n * e) by (nonlinear_arith);
    assert(e * k == k * e) by (nonlinear_arith);
    lemma_pow_adds(g, alpha, k * e);
    let gz = pow(g, alpha + e * k);
    assert(gz == ga * gke);
    let pz = pow(z2 as int, n);
    assert(pz % nn == (rn * rhone) % nn);
    lemma_mul_mod_noop(gz, pz, nn);
    lemma_mul_mod_noop(gz, rn * rhone, nn);
    assert((gz * pz) % nn == (gz * (rn * rhone)) % nn);
    // right side
    let a0 = ga * rn;
    let k0 = gk * rhon;
    let big_a = a0 % nn;
    let big_k = k0 % nn;
    lemma_pow1(big_a);
    lemma_pow_mod_noop(k0, e, nn);
    lemma_pow_distributes(gk, rhon, e);
    lemma_pow_multiplies(g, k, e);
    let pke = pow(big_k, e);
    assert(pke % nn == (gke * rhone) % nn);
    lemma_mul_mod_noop(big_a, pke, nn);
    lemma_mul_mod_noop(a0, gke * rhone, nn);
    lemma_mod_mod(a0, nn, 1);
    assert((big_a * pke) % nn == (a0 * (gke * rhone)) % nn);
    assert(gz * (rn * rhone) == a0 * (gke * rhone)) by (nonlinear_arith)
        requires
            gz == ga * gke,
            a0 == ga * rn,
    ;
}

/// Paillier encryption of `m` with nonce `r` under modulus `n`:
/// `(n + 1)^m * r^n mod n^2`.
pub open spec fn encrypt_spec(n: nat, m: nat, r: nat) -> nat {
    ((pow((n + 1) as int, m) * pow(r as int, n)) % ((n * n) as int)) as nat
}

/// Encryption as libpaillier performs it: `None` unless the message and the
/// nonce lie in `[1, n)`.
pub open spec fn encrypt_opt(n: nat, m: nat, r: nat) -> Option<nat> {
    if 1 <= m < n && 1 <= r < n {
        Some(encrypt_spec(n, m, r))
    } else {
        None
    }
}

/// Homomorphic addition: the product of two ciphertexts in `[1, n^2)`.
pub open spec fn add_opt(n: nat, c1: nat, c2: nat) -> Option<nat> {
    if 1 <= c1 < n * n && 1 <= c2 < n * n {
        Some((c1 * c2) % (n * n))
    } else {
        None
    }
}

/// Homomorphic multiplication by a scalar in `[1, n)` of a ciphertext in
/// `[1, n^2)`.
pub open spec fn mul_opt(n: nat, c: nat, a: nat) -> Option<nat> {
    if 1 <= c < n * n && 1 <= a < n {
        Some((pow(c as int, a) % ((n * n) as int)) as nat)
    } else {
        None
    }
}

/// The affine operation `add(mul(c, x), encrypt(y; r))` under modulus `n`.
pub open spec fn affine_opt(n: nat, c: nat, x: nat, y: nat, r: nat) -> Option<nat> {
    match (mul_opt(n, c, x), encrypt_opt(n, y, r)) {
        (Some(cx), Some(ey)) => add_opt(n, cx, ey),
        _ => None,
    }
}

/// The value held by an optional number.
pub open spec fn opt_value(r: Option<BigNat>) -> Option<nat> {
    match r {
        Some(x) => Some(x.value()),
        None => None,
    }
}

/// Products of congruent factors are congruent.
pub proof fn lemma_mul_congruent(a: int, b: int, a2: int, b2: int, m: int)
    requires
        m > 0,
        a % m == a2 % m,
        b % m == b2 % m,
    ensures
        (a * b) % m == (a2 * b2) % m,
{
    lemma_mul_mod_noop(a, b, m);
    lemma_mul_mod_noop(a2, b2, m);
}

/// The affine operation is homomorphic for the responses of the affine
/// range proof: whenever the operation accepts the responses
/// `alpha + e x`, `beta + e y` and `r rho^e mod n`, it gives `A D^e` modulo
/// `n^2`, where `A` and `D` are the operation on the masks and on the
/// witnesses.
pub proof fn lemma_affine_homomorphic(
    n: nat,
    c: nat,
    alpha: nat,
    beta: nat,
    r: nat,
    x: nat,
    y: nat,
    rho: nat,
    e: nat,
    a: nat,
    d: nat,
)
    requires
        n > 0,
        rho > 0,
        affine_opt(n, c, alpha, beta, r) == Some(a),
        affine_opt(n, c, x, y, rho) == Some(d),
        affine_opt(n, c, alpha + e * x, beta + e * y, combine_spec(r, 1, rho, e, n)) is Some,
    ensures
        affine_opt(n, c, alpha + e * x, beta + e * y, combine_spec(r, 1, rho, e, n)) == Some(
            combine_spec(a, 1, d, e, n * n),
        ),
{
    let nn = (n * n) as int;
    vstd::arithmetic::mul::lemma_mul_strictly_positive(n as int, n as int);
    let ca = pow(c as int, alpha);
    let cx = pow(c as int, x);
    let cxe = pow(c as int, x * e);
    let enc_b = encrypt_spec(n, beta, r) as int;
    let enc_y = encrypt_spec(n, y, rho) as int;
    let enc_ye = pow(enc_y, e);
    lemma_encrypt_homomorphic(n, beta, r, y, rho, e);
    lemma_pow1(enc_b);
    lemma_pow1(a as int);
    // the operation on the responses
    let cz = (pow(c as int, alpha + e * x) % nn) as int;
    let ez = encrypt_spec(n, beta + e * y, combine_spec(r, 1, rho, e, n)) as int;
    assert(e * x == x * e) by (nonlinear_arith);
    lemma_pow_adds(c as int, alpha, x * e);
    lemma_mod_mod(ca * cxe, nn, 1);
    assert(cz % nn == (ca * cxe) % nn);
    lemma_mod_mod(enc_b * enc_ye, nn, 1);
    assert(ez % nn == (enc_b * enc_ye) % nn);
    lemma_mul_congruent(cz, ez, ca * cxe, enc_b * enc_ye, nn);
    // A D^e
    let ca_m = ca % nn;
    let cx_m = cx % nn;
    lemma_mul_mod_noop(ca_m, enc_b, nn);
    lemma_mod_mod(ca, nn, 1);
    lemma_mul_congruent(ca_m, enc_b, ca, enc_b, nn);
    lemma_mod_mod(ca_m * enc_b, nn, 1);
    assert((a as int) % nn == (ca * enc_b) % nn);
    let d0 = cx_m * enc_y;
    assert(d as int == d0 % nn);
    lemma_pow_mod_noop(d0, e, nn);
    lemma_pow_distributes(cx_m, enc_y, e);
    lemma_pow_mod_noop(cx, e, nn);
    lemma_pow_multiplies(c as int, x, e);
    lemma_mod_mod(pow(cx_m, e), nn, 1);
    lemma_mul_congruent(pow(cx_m, e), enc_ye, cxe, enc_ye, nn);
    assert(pow(d as int, e) % nn == (cxe * enc_ye) % nn);
    lemma_mul_congruent(a as int, pow(d as int, e), ca * enc_b, cxe * enc_ye, nn);
    assert((ca * cxe) * (enc_b * enc_ye) == (ca * enc_b) * (cxe * enc_ye)) by (nonlinear_arith);
}

/// A Paillier public key, given by its modulus `N`.
pub struct EncryptionKey {
    pub n: BigNat,
}

impl EncryptionKey {
    /// The key with modulus `n`.
    pub fn from_modulus(n: BigNat) -> (r: EncryptionKey)
        ensures
            r.n == n,
    {
        EncryptionKey { n }
    }

    /// Encrypts `m` with nonce `r`.
    pub fn encrypt(&self, m: &BigNat, r: &BigNat) -> (c: Option<BigNat>)
        ensures
            opt_value(c) == encrypt_opt(self.n.value(), m.value(), r.value()),
    {
        paillier_encrypt(&self.n, m, r)
    }

    /// Computes `add(mul(c, x), encrypt(y; r))`.
    pub fn affine(&self, c: &BigNat, x: &BigNat, y: &BigNat, r: &BigNat) -> (res: Option<BigNat>)
        ensures
            opt_value(res) == affine_opt(self.n.value(), c.value(), x.value(), y.value(), r.value()),
    {
        let enc = match paillier_encrypt(&self.n, y, r) {
            Some(e) => e,
            None => return None,
        };
        let cx = match paillier_mul(&self.n, c, x) {
            Some(v) => v,
            None => return None,
        };
        paillier_add(&self.n, &cx, &enc)
    }

    /// `N^2`, the modulus of ciphertexts.
    pub fn nn(&self) -> (r: BigNat)
        ensures
            r.value() == self.n.value() * self.n.value(),
    {
        mul_big(&self.n, &self.n)
    }
}

/// Relies on libpaillier's `EncryptionKey::encrypt`, with the key built by
/// `EncryptionKey::from_bytes` from `N`: it accepts a message and a nonce in
/// `[1, N)` and returns `(N+1)^m mod N^2` times `r^N mod N^2`, mod `N^2`.
#[verifier::external_body]
pub(crate) fn paillier_encrypt(n: &BigNat, m: &BigNat, nonce: &BigNat) -> (r: Option<BigNat>)
    ensures
        opt_value(r) == encrypt_opt(n.value(), m.value(), nonce.value()),
        r matches Some(v) ==> v.encoding() == minimal_be(v.value()),
{
    let key = libpaillier::EncryptionKey::from_bytes(&n.bytes).ok()?;
    let nonce = BigNumber::from_slice(&nonce.bytes);
    key.encrypt(&m.bytes, Some(nonce)).map(|(c, _)| BigNat { bytes: c.to_bytes() })
}

/// Relies on libpaillier's `EncryptionKey::add`: both ciphertexts must lie
/// in `[1, N^2)`; the result is their product mod `N^2`.
#[verifier::external_body]
pub(crate) fn paillier_add(n: &BigNat, c1: &BigNat, c2: &BigNat) -> (r: Option<BigNat>)
    ensures
        opt_value(r) == add_opt(n.value(), c1.value(), c2.value()),
        r matches Some(v) ==> v.encoding() == minimal_be(v.value()),
{
    let key = libpaillier::EncryptionKey::from_bytes(&n.bytes).ok()?;
    let c1 = BigNumber::from_slice(&c1.bytes);
    key.add(&c1, &BigNumber::from_slice(&c2.bytes)).map(|c| BigNat { bytes: c.to_bytes() })
}

/// Relies on libpaillier's `EncryptionKey::mul`: the ciphertext must lie in
/// `[1, N^2)` and the scalar in `[1, N)`; the result is `c^a mod N^2`.
#[verifier::external_body]
pub(crate) fn paillier_mul(n: &BigNat, c: &BigNat, a: &BigNat) -> (r: Option<BigNat>)
    ensures
        opt_value(r) == mul_opt(n.value(), c.value(), a.value()),
        r matches Some(v) ==> v.encoding() == minimal_be(v.value()),
{
    let key = libpaillier::EncryptionKey::from_bytes(&n.bytes).ok()?;
    let c = BigNumber::from_slice(&c.bytes);
    key.mul(&c, &BigNumber::from_slice(&a.bytes)).map(|x| BigNat { bytes: x.to_bytes() })
}

/// Appends the encoding of `x` to a transcript.
pub fn absorb(buf: &mut Vec<u8>, x: &BigNat)
    ensures
        final(buf)@ == old(buf)@ + minimal_be(x.value()),
{
    let mut bytes = x.to_bytes();
    buf.append(&mut bytes);
}

/// The SHA-512 digest of a message.
pub uninterp spec fn sha512_of(msg: Seq<u8>) -> Seq<u8>;

/// Relies on `sha2::Sha512::digest`: the digest depends on the message
/// alone and is 64 bytes long.
#[verifier::external_body]
pub(crate) fn sha512(msg: &Vec<u8>) -> (r: Vec<u8>)
    ensures
        r@ == sha512_of(msg@),
        r@.len() == 64,
{
    sha2::Sha512::digest(msg.as_slice()).to_vec()
}

/// Number of draws `gen_inversible` makes before giving up.
pub const INVERSIBLE_ATTEMPTS: u32 = 256;

/// Accepts a draw `x` as an element of `(Z/nZ)*` exactly when it is
/// coprime to `n`.
pub fn accept_inversible(x: BigNat, n: &BigNat) -> (r: Option<BigNat>)
    ensures
        r is Some <==> gcd(x.value(), n.value()) == 1,
        r matches Some(v) ==> v.value() == x.value(),
{
    let one = BigNat::from_u64(1);
    let g = gcd_big(&x, n);
    if eq_big(&g, &one) {
        Some(x)
    } else {
        None
    }
}

/// Draws an element of `(Z/nZ)*`: a value below `n` coprime to it, retrying
/// on draws that share a factor with `n`.
pub fn gen_inversible<R: RngCore>(n: &BigNat, rng: &mut R) -> (r: Option<BigNat>)
    requires
        n.value() > 0,
    ensures
        r matches Some(x) ==> x.value() < n.value() && gcd(x.value(), n.value()) == 1,
        n.value() == 1 ==> r is Some,
{
    let mut attempt: u32 = 0;
    while attempt < INVERSIBLE_ATTEMPTS
        invariant
            n.value() > 0,
            attempt > 0 ==> n.value() != 1,
        decreases INVERSIBLE_ATTEMPTS - attempt,
    {
        let x = sample_below(n, rng);
        proof {
            if n.value() == 1 {
                assert(x.value() == 0);
                assert(gcd(1, 0) == 1);
                assert(gcd(0, 1) == gcd(1, 0));
            }
        }
        match accept_inversible(x, n) {
            Some(v) => {
                return Some(v);
            },
            None => {},
        }
        attempt = attempt + 1;
    }
    None
}

} // verus!
