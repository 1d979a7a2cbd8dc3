//! The seeded generator of `rand` that a signer draws its bytes from.
//!
//! Nothing here is proved. What the generator hands out is random to the
//! library: the contracts below promise only how many bytes come back.

use rand::rngs::StdRng;
use rand::{RngCore, SeedableRng};
use vstd::prelude::*;

verus! {

#[verifier::external_type_specification]
#[verifier::external_body]
pub struct ExStdRng(rand::rngs::StdRng);

/// `RngCore::fill_bytes` on a `StdRng`, with a buffer of `len` bytes: the
/// buffer comes back entirely filled, so it still has `len` bytes.
#[verifier::external_body]
pub(crate) fn random_bytes(rng: &mut StdRng, len: usize) -> (bytes: Vec<u8>)
    ensures
        bytes@.len() == len,
{
    let mut bytes = vec![0u8; len];
    rng.fill_bytes(&mut bytes);
    bytes
}

/// `SeedableRng::seed_from_u64` for `StdRng`: a generator whose stream the
/// seed fixes. Nothing is promised of it here.
#[verifier::external_body]
pub(crate) fn seeded_rng(seed: u64) -> (rng: StdRng) {
    StdRng::seed_from_u64(seed)
}

} // verus!
