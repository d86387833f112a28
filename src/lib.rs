//! Non-interactive zero-knowledge proofs from CGGMP21 over Paillier
//! ciphertexts and Ring-Pedersen commitments:
//!
//! - `paillier_encryption_in_range` (Πenc): a Paillier plaintext is small;
//! - `group_element_vs_paillier_encryption_in_range` (Πlog*): a Paillier
//!   plaintext is small and is the discrete logarithm of a curve point;
//! - `paillier_affine_operation_in_range` (Πaff-g): an affine operation on a
//!   ciphertext used small, committed operands;
//! - `paillier_blum_modulus` (Πmod): a modulus is a Paillier-Blum integer.
//!
//! Each proof has `commit`, `challenge`, `prove`, `verify` and
//! `compute_proof`, with contracts over the numbers that the values stand
//! for (`BigNat::value`).
use vstd::prelude::*;

pub mod bignum;
pub mod common;
pub mod curve;
pub mod group_element_vs_paillier_encryption_in_range;
pub mod paillier_affine_operation_in_range;
pub mod paillier_blum_modulus;
pub mod paillier_encryption_in_range;

verus! {

/// Bit size of secret values proven to be in range.
pub const L: usize = 228;

/// Bit size of the addend in the affine operation proof, which the paper
/// bounds separately from the multiplier; equal to `L` by default.
pub const L_PRIME: usize = L;

/// Bit size overshoot of responses over `L`.
pub const EPSILON: usize = 322;

/// Number of parallel challenges in the Paillier-Blum modulus proof.
pub const M: usize = 13;

} // verus!
