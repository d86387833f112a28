//! Arbitrary-precision natural numbers, held as big-endian bytes, with
//! arithmetic delegated to `unknown_order`.
use vstd::prelude::*;
use vstd::arithmetic::power::pow;
use libpaillier::unknown_order::BigNumber;
use rand_core::RngCore;

verus! {

/// Value of a big-endian byte string.
pub open spec fn be_value(s: Seq<u8>) -> nat
    decreases s.len(),
{
    if s.len() == 0 {
        0
    } else {
        be_value(s.drop_last()) * 256 + s.last() as nat
    }
}

/// A byte string of length `k` stands for a number below `256^k`.
pub proof fn lemma_be_value_bound(s: Seq<u8>)
    ensures
        be_value(s) < pow(256, s.len()),
    decreases s.len(),
{
    vstd::arithmetic::power::lemma_pow0(256);
    if s.len() > 0 {
        let t = s.drop_last();
        lemma_be_value_bound(t);
        vstd::arithmetic::power::lemma_pow_adds(256, t.len(), 1);
        vstd::arithmetic::power::lemma_pow1(256);
        assert(t.len() + 1 == s.len());
        let p = pow(256, t.len());
        assert(be_value(t) * 256 + (s.last() as nat) < p * 256) by (nonlinear_arith)
            requires
                be_value(t) < p,
                s.last() < 256,
        ;
    }
}

/// The minimal big-endian encoding of `v`: no leading zero byte, and a
/// single zero byte for zero.
pub open spec fn minimal_be(v: nat) -> Seq<u8>
    decreases v,
{
    if v < 256 {
        seq![v as u8]
    } else {
        minimal_be(v / 256).push((v % 256) as u8)
    }
}

/// A natural number. The bytes are always the minimal big-endian encoding,
/// as `unknown_order` writes it, so that transcripts hash the canonical form.
pub struct BigNat {
    pub(crate) bytes: Vec<u8>,
}

impl BigNat {
    #[verifier::type_invariant]
    spec fn canonical(self) -> bool {
        self.bytes@ == minimal_be(be_value(self.bytes@))
    }

    /// The number this value stands for.
    pub open spec fn value(&self) -> nat {
        be_value(self.encoding())
    }

    /// The stored big-endian encoding.
    pub closed spec fn encoding(&self) -> Seq<u8> {
        self.bytes@
    }

    /// The big-endian encoding, as hashed into transcripts.
    pub fn to_bytes(&self) -> (r: Vec<u8>)
        ensures
            r@ == self.encoding(),
            r@ == minimal_be(self.value()),
            be_value(r@) == self.value(),
    {
        proof {
            use_type_invariant(self);
        }
        self.bytes.clone()
    }

    /// Reads a big-endian byte string.
    pub fn from_bytes(b: &[u8]) -> (r: BigNat)
        ensures
            r.value() == be_value(b@),
    {
        from_slice_big(b)
    }
}

/// Relies on `BigNumber::from_slice` and `BigNumber::to_bytes`: the bytes
/// are read as an unsigned big-endian number and written back in minimal form.
#[verifier::external_body]
fn from_slice_big(b: &[u8]) -> (r: BigNat)
    ensures
        r.encoding() == minimal_be(r.value()),
        r.value() == be_value(b@),
{
    BigNat { bytes: BigNumber::from_slice(b).to_bytes() }
}

/// Greatest common divisor, by Euclid's algorithm.
pub open spec fn gcd(a: nat, b: nat) -> nat
    decreases b,
{
    if b == 0 {
        a
    } else {
        gcd(b, a % b)
    }
}

impl BigNat {
    /// The number `v`.
    pub fn from_u64(v: u64) -> (r: BigNat)
        ensures
            r.value() == v,
    {
        from_u64_big(v)
    }
}

/// Relies on `BigNumber::from(u64)`: the number is the integer.
#[verifier::external_body]
fn from_u64_big(v: u64) -> (r: BigNat)
    ensures
        r.encoding() == minimal_be(r.value()),
        r.value() == v,
{
    BigNat { bytes: BigNumber::from(v).to_bytes() }
}

/// Relies on `BigNumber`'s `Add`: the exact sum.
#[verifier::external_body]
pub(crate) fn add_big(a: &BigNat, b: &BigNat) -> (r: BigNat)
    ensures
        r.encoding() == minimal_be(r.value()),
        r.value() == a.value() + b.value(),
{
    BigNat { bytes: (BigNumber::from_slice(&a.bytes) + BigNumber::from_slice(&b.bytes)).to_bytes() }
}

/// Relies on `BigNumber`'s `Mul`: the exact product.
#[verifier::external_body]
pub(crate) fn mul_big(a: &BigNat, b: &BigNat) -> (r: BigNat)
    ensures
        r.encoding() == minimal_be(r.value()),
        r.value() == a.value() * b.value(),
{
    BigNat { bytes: (BigNumber::from_slice(&a.bytes) * BigNumber::from_slice(&b.bytes)).to_bytes() }
}

/// Relies on `BigNumber::modpow`: for a positive modulus and a non-negative
/// exponent, `a ^ e mod m` in `[0, m)`. It panics on a zero modulus.
#[verifier::external_body]
pub(crate) fn modpow_big(a: &BigNat, e: &BigNat, m: &BigNat) -> (r: BigNat)
    requires
        m.value() > 0,
    ensures
        r.encoding() == minimal_be(r.value()),
        r.value() == pow(a.value() as int, e.value()) % (m.value() as int),
{
    let a = BigNumber::from_slice(&a.bytes);
    let r = a.modpow(&BigNumber::from_slice(&e.bytes), &BigNumber::from_slice(&m.bytes));
    BigNat { bytes: r.to_bytes() }
}

/// Relies on `BigNumber::modmul`: `a * b mod m` in `[0, m)`.
#[verifier::external_body]
pub(crate) fn modmul_big(a: &BigNat, b: &BigNat, m: &BigNat) -> (r: BigNat)
    requires
        m.value() > 0,
    ensures
        r.encoding() == minimal_be(r.value()),
        r.value() == (a.value() * b.value()) % m.value(),
{
    let a = BigNumber::from_slice(&a.bytes);
    let r = a.modmul(&BigNumber::from_slice(&b.bytes), &BigNumber::from_slice(&m.bytes));
    BigNat { bytes: r.to_bytes() }
}

/// Relies on `BigNumber`'s `Sub`: the exact difference, here of a smaller
/// number from a larger one.
#[verifier::external_body]
pub(crate) fn sub_big(a: &BigNat, b: &BigNat) -> (r: BigNat)
    requires
        b.value() <= a.value(),
    ensures
        r.encoding() == minimal_be(r.value()),
        r.value() == a.value() - b.value(),
{
    BigNat { bytes: (BigNumber::from_slice(&a.bytes) - BigNumber::from_slice(&b.bytes)).to_bytes() }
}

/// Relies on `BigNumber`'s `Div`: the quotient, rounded down for
/// non-negative operands. A zero divisor makes it panic.
#[verifier::external_body]
pub(crate) fn div_big(a: &BigNat, b: &BigNat) -> (r: BigNat)
    requires
        b.value() > 0,
    ensures
        r.encoding() == minimal_be(r.value()),
        r.value() == a.value() / b.value(),
{
    BigNat { bytes: (BigNumber::from_slice(&a.bytes) / BigNumber::from_slice(&b.bytes)).to_bytes() }
}

/// Relies on `BigNumber::invert`: for a non-zero `a` and a modulus above one
/// that are coprime, the inverse of `a` in `[0, n)`; otherwise `None`.
#[verifier::external_body]
pub(crate) fn invert_big(a: &BigNat, n: &BigNat) -> (r: Option<BigNat>)
    ensures
        r matches Some(v) ==> v.encoding() == minimal_be(v.value()),
        r is Some <==> (a.value() > 0 && n.value() > 1 && gcd(a.value(), n.value()) == 1),
        r matches Some(v) ==> v.value() < n.value() && (a.value() * v.value()) % n.value() == 1,
{
    let inv = BigNumber::from_slice(&a.bytes).invert(&BigNumber::from_slice(&n.bytes))?;
    Some(BigNat { bytes: inv.to_bytes() })
}

/// Relies on `BigNumber`'s `PartialOrd`: numeric order.
#[verifier::external_body]
pub(crate) fn le_big(a: &BigNat, b: &BigNat) -> (r: bool)
    ensures
        r == (a.value() <= b.value()),
{
    BigNumber::from_slice(&a.bytes) <= BigNumber::from_slice(&b.bytes)
}

/// Relies on `BigNumber`'s `PartialEq`: numeric equality.
#[verifier::external_body]
pub(crate) fn eq_big(a: &BigNat, b: &BigNat) -> (r: bool)
    ensures
        r == (a.value() == b.value()),
{
    BigNumber::from_slice(&a.bytes) == BigNumber::from_slice(&b.bytes)
}

/// Relies on `BigNumber::gcd`: the non-negative greatest common divisor.
#[verifier::external_body]
pub(crate) fn gcd_big(a: &BigNat, b: &BigNat) -> (r: BigNat)
    ensures
        r.encoding() == minimal_be(r.value()),
        r.value() == gcd(a.value(), b.value()),
{
    BigNat { bytes: BigNumber::from_slice(&a.bytes).gcd(&BigNumber::from_slice(&b.bytes)).to_bytes() }
}

/// Relies on `BigNumber::from_rng`: a value drawn below a positive bound.
/// A zero bound makes it panic.
#[verifier::external_body]
pub(crate) fn sample_below<R: RngCore>(n: &BigNat, rng: &mut R) -> (r: BigNat)
    requires
        n.value() > 0,
    ensures
        r.encoding() == minimal_be(r.value()),
        r.value() < n.value(),
{
    BigNat { bytes: BigNumber::from_rng(&BigNumber::from_slice(&n.bytes), rng).to_bytes() }
}

/// Relies on `BigNumber::one` and `Shl`: `1 << k` is two to the `k`.
#[verifier::external_body]
pub(crate) fn pow2_big(k: usize) -> (r: BigNat)
    ensures
        r.encoding() == minimal_be(r.value()),
        r.value() == pow(2, k as nat),
{
    BigNat { bytes: (BigNumber::one() << k).to_bytes() }
}

} // verus!
