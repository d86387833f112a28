//! Elliptic-curve operations used by the discrete-log proof, delegated to
//! `generic_ec`. Points travel as their compressed encodings and scalars as
//! big-endian numbers, so the proof logic handles plain bytes only.
use vstd::prelude::*;
use generic_ec::{Curve, Point, Scalar};
use generic_ec::hash_to_curve::{FromHash, Tag};
use generic_ec_core::hash_to_curve::HashToCurve;
use crate::bignum::BigNat;

verus! {

/// Relies on `Scalar::from_be_bytes_mod_order`, the generator's `Mul` and
/// `Point::to_bytes(true)`: the compressed encoding of `(k mod q) * G`.
#[verifier::external_body]
pub(crate) fn generator_mul<E: Curve>(k: &BigNat) -> (r: Vec<u8>) {
    let k = Scalar::<E>::from_be_bytes_mod_order(&k.bytes);
    (Point::<E>::generator() * k).to_bytes(true).as_bytes().to_vec()
}

/// Relies on `Point::from_bytes`, the points' `Add` and `Mul` with
/// `Scalar::from_be_bytes_mod_order`, and `Point::to_bytes(true)`: the
/// compressed encoding of `Y + (e mod q) * X`, or `None` when an encoding
/// does not decode to a point.
#[verifier::external_body]
pub(crate) fn add_scaled<E: Curve>(y: &Vec<u8>, x: &Vec<u8>, e: &BigNat) -> (r: Option<Vec<u8>>) {
    let y = Point::<E>::from_bytes(y).ok()?;
    let x = Point::<E>::from_bytes(x).ok()?;
    let e = Scalar::<E>::from_be_bytes_mod_order(&e.bytes);
    Some((y + x * e).to_bytes(true).as_bytes().to_vec())
}

/// Relies on `Tag::new`, which refuses an empty tag, and on
/// `Scalar::hash_concat` with `Scalar::to_be_bytes`: the big-endian bytes of
/// the scalar hashed from the concatenated parts.
#[verifier::external_body]
pub(crate) fn hash_to_scalar<E: Curve + HashToCurve>(tag: &[u8], parts: &Vec<Vec<u8>>) -> (r: Option<
    Vec<u8>,
>)
    ensures
        tag@.len() == 0 ==> r is None,
{
    let tag = Tag::new(tag)?;
    let parts: Vec<&[u8]> = parts.iter().map(|p| p.as_slice()).collect();
    let scalar = Scalar::<E>::hash_concat(tag, &parts).ok()?;
    Some(scalar.to_be_bytes().as_bytes().to_vec())
}

} // verus!
