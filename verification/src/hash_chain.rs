//! Walking a hash chain.
//!
//! A chain is a sequence of hashes in which each is the tweaked hash of the
//! one before it. The tweak holds the index of the chain and the position of
//! the hash that comes out, so a walk has to know where it starts.

use crate::hash::{
    lemma_chain_step_collision,
    spec_keccak_collision,
    spec_tweak_hash_chain,
    tweak_hash_chain,
};
use crate::types::Param;
use vstd::prelude::*;

verus! {

/// The hash at position `start_pos + steps` of chain `chain_index`, given
/// that `start_hash` stands at position `start_pos`.
pub open spec fn spec_hash_chain(
    param: Seq<u8>,
    chain_index: nat,
    start_hash: Seq<u8>,
    start_pos: nat,
    steps: nat,
) -> Seq<u8>
    decreases steps,
{
    if steps == 0 {
        start_hash
    } else {
        spec_tweak_hash_chain(
            param,
            chain_index,
            start_pos + steps,
            spec_hash_chain(param, chain_index, start_hash, start_pos, (steps - 1) as nat),
        )
    }
}

/// Walks `steps` steps along chain `chain_index` from `start_hash`, which
/// stands at position `start_pos`, and returns the hash reached.
pub fn hash_chain(
    param: &Param,
    chain_index: usize,
    start_hash: crate::hash::Hash,
    start_pos: usize,
    steps: usize,
) -> (end: crate::hash::Hash)
    requires
        start_pos + steps <= usize::MAX,
    ensures
        end@ == spec_hash_chain(
            param@,
            chain_index as nat,
            start_hash@,
            start_pos as nat,
            steps as nat,
        ),
{
    let mut current = start_hash;
    let mut j: usize = 0;
    while j < steps
        invariant
            j <= steps,
            start_pos + steps <= usize::MAX,
            current@ == spec_hash_chain(
                param@,
                chain_index as nat,
                start_hash@,
                start_pos as nat,
                j as nat,
            ),
        decreases steps - j,
    {
        let pos_in_chain = start_pos + j + 1;
        current = tweak_hash_chain(param, chain_index, pos_in_chain, current);
        j += 1;
    }
    current
}

/// A walk of no steps stays where it is.
pub proof fn lemma_hash_chain_zero_steps(
    param: Seq<u8>,
    chain_index: nat,
    start_hash: Seq<u8>,
    start_pos: nat,
)
    ensures
        spec_hash_chain(param, chain_index, start_hash, start_pos, 0) == start_hash,
{
}

/// Walks compose: `k1` steps and then `k2` steps from where they ended are
/// `k1 + k2` steps.
pub proof fn lemma_hash_chain_compose(
    param: Seq<u8>,
    chain_index: nat,
    start_hash: Seq<u8>,
    start_pos: nat,
    k1: nat,
    k2: nat,
)
    ensures
        spec_hash_chain(
            param,
            chain_index,
            spec_hash_chain(param, chain_index, start_hash, start_pos, k1),
            start_pos + k1,
            k2,
        ) == spec_hash_chain(param, chain_index, start_hash, start_pos, k1 + k2),
    decreases k2,
{
    if k2 > 0 {
        lemma_hash_chain_compose(param, chain_index, start_hash, start_pos, k1, (k2 - 1) as nat);
        assert(k1 + k2 - 1 == k1 + (k2 - 1) as nat);
    }
}

/// Two walks of the same length on the same chain, from the same position
/// but from different hashes, that end in the same hash show a collision.
pub proof fn lemma_hash_chain_collision(
    param: Seq<u8>,
    chain_index: nat,
    start1: Seq<u8>,
    start2: Seq<u8>,
    start_pos: nat,
    steps: nat,
)
    requires
        start1 != start2,
        spec_hash_chain(param, chain_index, start1, start_pos, steps) == spec_hash_chain(
            param,
            chain_index,
            start2,
            start_pos,
            steps,
        ),
    ensures
        spec_keccak_collision(),
    decreases steps,
{
    if steps > 0 {
        let before1 = spec_hash_chain(param, chain_index, start1, start_pos, (steps - 1) as nat);
        let before2 = spec_hash_chain(param, chain_index, start2, start_pos, (steps - 1) as nat);
        if before1 == before2 {
            lemma_hash_chain_collision(
                param,
                chain_index,
                start1,
                start2,
                start_pos,
                (steps - 1) as nat,
            );
        } else {
            lemma_chain_step_collision(param, chain_index, start_pos + steps, before1, before2);
        }
    }
}

} // verus!
