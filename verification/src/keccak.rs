//! The Keccak-256 hasher and the Keccak permutation of `tiny_keccak`, as the
//! rest of the library sees them.
//!
//! Nothing here is proved: the functions below call the outside crate, and
//! their contracts say what its source shows of them.

use tiny_keccak::{Hasher, Keccak};
use vstd::prelude::*;

verus! {

#[verifier::external_type_specification]
#[verifier::external_body]
pub struct ExKeccak(tiny_keccak::Keccak);

/// The bytes that a hasher has absorbed so far, in the order in which they
/// were handed to it.
pub uninterp spec fn absorbed(hasher: Keccak) -> Seq<u8>;

/// The 32-byte Keccak-256 digest of a byte string.
pub uninterp spec fn keccak256(input: Seq<u8>) -> Seq<u8>;

/// `Keccak::v256`: a fresh hasher, which has absorbed nothing.
#[verifier::external_body]
pub(crate) fn keccak_v256() -> (hasher: Keccak)
    ensures
        absorbed(hasher) == Seq::<u8>::empty(),
{
    Keccak::v256()
}

/// `Hasher::update` on a `Keccak`: the input is absorbed after what was
/// absorbed before. The hasher keeps only its sponge state, which depends on
/// the concatenation of the inputs and not on how they were split into calls.
#[verifier::external_body]
pub(crate) fn keccak_update(hasher: &mut Keccak, input: &[u8])
    ensures
        absorbed(*final(hasher)) == absorbed(*old(hasher)) + input@,
{
    hasher.update(input)
}

/// `Hasher::finalize` on a `Keccak` made by `v256`, with an output of 32
/// bytes: pads what was absorbed and squeezes the digest.
#[verifier::external_body]
pub(crate) fn keccak_finalize(hasher: Keccak) -> (digest: [u8; 32])
    ensures
        digest@ == keccak256(absorbed(hasher)),
{
    let mut digest = [0u8; 32];
    hasher.finalize(&mut digest);
    digest
}

/// What the permutation `keccak-f[1600]` makes of a state of 25 lanes.
pub uninterp spec fn keccak_f1600(state: Seq<u64>) -> Seq<u64>;

/// `tiny_keccak::keccakf`: permutes the state in place.
#[verifier::external_body]
pub(crate) fn keccak_permute(state: &mut [u64; 25])
    ensures
        final(state)@ == keccak_f1600(old(state)@),
{
    tiny_keccak::keccakf(state)
}

} // verus!
