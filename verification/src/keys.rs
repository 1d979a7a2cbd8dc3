//! One-time key pairs: the secret starts of the chains and their public ends.

use crate::hash::hash_views;
use crate::hash_chain::{hash_chain, spec_hash_chain};
use crate::spec::Spec;
use crate::types::Param;
use rand::rngs::StdRng;
use vstd::prelude::*;

verus! {

/// What a one-time secret key holds.
pub struct SkView {
    pub param: Seq<u8>,
    pub start_hashes: Seq<Seq<u8>>,
}

/// What a one-time public key holds.
pub struct PkView {
    pub param: Seq<u8>,
    pub end_hashes: Seq<Seq<u8>>,
}

/// The hashes `steps` steps along each chain: chain `i` starts at
/// `start_hashes[i]`, at position 0.
pub open spec fn spec_chain_ends(param: Seq<u8>, start_hashes: Seq<Seq<u8>>, steps: nat) -> Seq<
    Seq<u8>,
> {
    Seq::new(
        start_hashes.len(),
        |i: int| spec_hash_chain(param, i as nat, start_hashes[i], 0, steps),
    )
}

/// The public key of a secret key: the end of each chain, `chain_len - 1`
/// steps from its start.
pub open spec fn spec_derive(sk: SkView, spec: Spec) -> PkView {
    PkView {
        param: sk.param,
        end_hashes: spec_chain_ends(
            sk.param,
            sk.start_hashes,
            (spec.spec_chain_len() - 1) as nat,
        ),
    }
}

/// A one-time secret key: the first hash of each chain.
#[derive(Debug)]
pub struct Sk {
    param: Param,
    start_hashes: Vec<crate::hash::Hash>,
}

impl View for Sk {
    type V = SkView;

    closed spec fn view(&self) -> SkView {
        SkView { param: self.param@, start_hashes: hash_views(self.start_hashes@) }
    }
}

impl Clone for Sk {
    fn clone(&self) -> (res: Self)
        ensures
            res@ == self@,
    {
        Sk {
            param: self.param.clone(),
            start_hashes: crate::hash::clone_hashes(&self.start_hashes),
        }
    }
}

impl Sk {
    /// The secret key with the given chain starts.
    pub fn new(param: Param, start_hashes: Vec<crate::hash::Hash>) -> (sk: Sk)
        ensures
            sk@.param == param@,
            sk@.start_hashes == hash_views(start_hashes@),
    {
        Sk { param, start_hashes }
    }

    /// Draws a secret key from the generator: one hash for each chain, in
    /// the order of the chains.
    pub fn random(rng: &mut StdRng, param: Param, spec: &Spec) -> (sk: Sk)
        requires
            spec.coordinate_resolution_bits != 0,
            spec.message_hash_len * 8 <= usize::MAX,
        ensures
            sk@.param == param@,
            sk@.start_hashes.len() == spec.spec_dimension(),
    {
        let dimension = spec.dimension();
        let mut start_hashes: Vec<crate::hash::Hash> = Vec::new();
        let mut i: usize = 0;
        while i < dimension
            invariant
                i <= dimension,
                start_hashes@.len() == i,
            decreases dimension - i,
        {
            start_hashes.push(crate::hash::Hash::random(rng));
            i += 1;
        }
        Sk { param, start_hashes }
    }

    /// The parameter of the signer that the key belongs to.
    pub fn param(&self) -> (param: &Param)
        ensures
            param@ == self@.param,
    {
        &self.param
    }

    /// The first hash of each chain.
    pub fn start_hashes(&self) -> (start_hashes: &Vec<crate::hash::Hash>)
        ensures
            hash_views(start_hashes@) == self@.start_hashes,
    {
        &self.start_hashes
    }
}

/// A one-time public key: the last hash of each chain.
#[derive(Debug)]
pub struct Pk {
    pub param: Param,
    pub end_hashes: Vec<crate::hash::Hash>,
}

impl View for Pk {
    type V = PkView;

    open spec fn view(&self) -> PkView {
        PkView { param: self.param@, end_hashes: hash_views(self.end_hashes@) }
    }
}

impl Clone for Pk {
    fn clone(&self) -> (res: Self)
        ensures
            res@ == self@,
    {
        Pk { param: self.param.clone(), end_hashes: crate::hash::clone_hashes(&self.end_hashes) }
    }
}

impl Pk {
    /// Derives the public key of a secret key: walks each chain from its
    /// start to its end.
    pub fn derive(sk: &Sk, spec: &Spec) -> (pk: Pk)
        requires
            spec.coordinate_resolution_bits < usize::BITS,
        ensures
            pk@ == spec_derive(sk@, *spec),
    {
        let param = sk.param.clone();
        let chain_len = spec.chain_len();
        let mut end_hashes: Vec<crate::hash::Hash> = Vec::new();
        let mut chain_index: usize = 0;
        while chain_index < sk.start_hashes.len()
            invariant
                chain_index <= sk.start_hashes@.len(),
                param@ == sk.param@,
                chain_len == spec.spec_chain_len(),
                chain_len >= 1,
                end_hashes@.len() == chain_index,
                forall|i: int|
                    0 <= i < chain_index ==> (#[trigger] end_hashes@[i])@ == spec_hash_chain(
                        param@,
                        i as nat,
                        sk.start_hashes@[i]@,
                        0,
                        (chain_len - 1) as nat,
                    ),
            decreases sk.start_hashes@.len() - chain_index,
        {
            let end = hash_chain(
                &param,
                chain_index,
                sk.start_hashes[chain_index],
                0,
                chain_len - 1,
            );
            end_hashes.push(end);
            chain_index += 1;
        }
        let pk = Pk { param, end_hashes };
        assert(pk@.end_hashes =~= spec_derive(sk@, *spec).end_hashes);
        pk
    }
}

} // verus!
