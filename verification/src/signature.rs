//! Signatures, and what it takes for one to be accepted.
//!
//! A signature for one epoch holds the nonce, one hash on each chain, the
//! one-time public key, and the path that ties that key to the signer's
//! root. Verifying walks each chain from the hash given to its end, compares
//! the ends with the public key, and follows the path to the root.

use crate::code::{new_valid, spec_codeword, spec_codeword_valid};
use crate::hash::{
    hash_views,
    spec_keccak_collision,
    spec_tweak_public_key_hash,
    tweak_public_key_hash,
};
use crate::hash_chain::{hash_chain, lemma_hash_chain_collision, spec_hash_chain};
use crate::hash_tree::{spec_merkle_verify, HashTreeProof, HashTreeProofView};
use crate::keys::{Pk, PkView};
use crate::spec::Spec;
use crate::types::{Message, Nonce, Param};
use vstd::prelude::*;

verus! {

/// What a one-time signature holds.
pub struct OtsSignatureView {
    pub nonce: Seq<u8>,
    pub hashes: Seq<Seq<u8>>,
}

/// What a signature holds.
pub struct SignatureView {
    pub signature: OtsSignatureView,
    pub hash_tree_proof: HashTreeProofView,
    pub public_key: PkView,
}

/// A one-time signature: the nonce that made the codeword valid, and on each
/// chain the hash at the position that the codeword gives.
#[derive(Debug)]
pub struct OtsSignature {
    pub nonce: Nonce,
    pub hashes: Vec<crate::hash::Hash>,
}

impl View for OtsSignature {
    type V = OtsSignatureView;

    open spec fn view(&self) -> OtsSignatureView {
        OtsSignatureView { nonce: self.nonce@, hashes: hash_views(self.hashes@) }
    }
}

impl Clone for OtsSignature {
    fn clone(&self) -> (res: Self)
        ensures
            res@ == self@,
    {
        OtsSignature { nonce: self.nonce, hashes: crate::hash::clone_hashes(&self.hashes) }
    }
}

/// A signature for one epoch of a signer.
#[derive(Debug)]
pub struct Signature {
    /// The one-time signature.
    pub signature: OtsSignature,
    /// The proof that the public key of the epoch is a leaf of the
    /// signer's tree.
    pub hash_tree_proof: HashTreeProof,
    /// The one-time public key of the epoch.
    pub public_key: Pk,
}

impl View for Signature {
    type V = SignatureView;

    open spec fn view(&self) -> SignatureView {
        SignatureView {
            signature: self.signature@,
            hash_tree_proof: self.hash_tree_proof@,
            public_key: self.public_key@,
        }
    }
}

impl Clone for Signature {
    fn clone(&self) -> (res: Self)
        ensures
            res@ == self@,
    {
        Signature {
            signature: self.signature.clone(),
            hash_tree_proof: self.hash_tree_proof.clone(),
            public_key: self.public_key.clone(),
        }
    }
}

/// How many chains a signature is checked on: as many as it has both a hash
/// and a coordinate for.
pub open spec fn spec_checked_chains(coords: Seq<u8>, hashes: Seq<Seq<u8>>) -> nat {
    if hashes.len() <= coords.len() {
        hashes.len()
    } else {
        coords.len()
    }
}

/// The end of chain `i`, reached from `hash` at position `coordinate`: the
/// hash `chain_len - 1 - coordinate` steps on.
pub open spec fn spec_completed_chain(
    spec: Spec,
    param: Seq<u8>,
    i: nat,
    hash: Seq<u8>,
    coordinate: u8,
) -> Seq<u8> {
    spec_hash_chain(
        param,
        i,
        hash,
        coordinate as nat,
        (spec.spec_chain_len() - 1 - coordinate) as nat,
    )
}

/// Whether the hashes of a signature lead to the ends that the public key
/// holds: the key has one end for each chain checked, and each chain,
/// completed from the hash given, ends there.
pub open spec fn spec_chains_complete(
    spec: Spec,
    param: Seq<u8>,
    coords: Seq<u8>,
    hashes: Seq<Seq<u8>>,
    end_hashes: Seq<Seq<u8>>,
) -> bool {
    &&& end_hashes.len() == spec_checked_chains(coords, hashes)
    &&& forall|i: int|
        0 <= i < spec_checked_chains(coords, hashes) ==> #[trigger] end_hashes[i]
            == spec_completed_chain(spec, param, i as nat, hashes[i], coords[i])
}

/// Whether a one-time signature is accepted for `message` under a one-time
/// public key: the codeword that the message and the nonce give under the
/// key's parameter is valid, and the hashes lead to the ends that the key
/// holds.
pub open spec fn spec_verify_one_time(
    spec: Spec,
    message: Seq<u8>,
    signature: OtsSignatureView,
    pk: PkView,
) -> bool {
    &&& spec_codeword_valid(spec, pk.param, message, signature.nonce)
    &&& spec_chains_complete(
        spec,
        pk.param,
        spec_codeword(spec, pk.param, message, signature.nonce),
        signature.hashes,
        pk.end_hashes,
    )
}

/// Whether a signature is accepted for `message` under the root `root` of a
/// signer with parameter `param`: the one-time signature is accepted under
/// the public key that comes with it, and the path leads from the leaf of
/// that key to the root.
///
/// The codeword and the chains go by the parameter that the public key
/// carries, the leaf and the path by `param`; the two are not compared.
pub open spec fn spec_verify_signature(
    spec: Spec,
    param: Seq<u8>,
    message: Seq<u8>,
    signature: SignatureView,
    root: Seq<u8>,
) -> bool {
    &&& spec_verify_one_time(spec, message, signature.signature, signature.public_key)
    &&& spec_merkle_verify(
        param,
        signature.hash_tree_proof,
        spec_tweak_public_key_hash(param, signature.public_key.end_hashes),
        root,
    )
}

/// A signature is accepted under at most one root: under any other root,
/// it is rejected.
pub proof fn lemma_accepted_root_unique(
    spec: Spec,
    param: Seq<u8>,
    message: Seq<u8>,
    signature: SignatureView,
    root1: Seq<u8>,
    root2: Seq<u8>,
)
    requires
        spec_verify_signature(spec, param, message, signature, root1),
        spec_verify_signature(spec, param, message, signature, root2),
    ensures
        root1 == root2,
{
}

/// The nonce, the hashes and the parameter of an accepted signature fix the
/// end hashes of its public key: with any other end hashes, it is rejected.
pub proof fn lemma_accepted_end_hashes_unique(
    spec: Spec,
    param: Seq<u8>,
    message: Seq<u8>,
    signature1: SignatureView,
    signature2: SignatureView,
    root1: Seq<u8>,
    root2: Seq<u8>,
)
    requires
        spec_verify_signature(spec, param, message, signature1, root1),
        spec_verify_signature(spec, param, message, signature2, root2),
        signature1.signature == signature2.signature,
        signature1.public_key.param == signature2.public_key.param,
    ensures
        signature1.public_key.end_hashes == signature2.public_key.end_hashes,
{
    let ends1 = signature1.public_key.end_hashes;
    let ends2 = signature2.public_key.end_hashes;
    assert forall|i: int| 0 <= i < ends1.len() implies ends1[i] == ends2[i] by {
        assert(#[trigger] ends1[i] == ends1[i]);
        assert(#[trigger] ends2[i] == ends2[i]);
    }
    assert(ends1 =~= ends2);
}

/// Two signatures for one message and one public key, with the same nonce,
/// that differ in the hash of a chain that is checked, are both accepted
/// only where two different byte strings have the same Keccak-256 digest.
pub proof fn lemma_second_chain_hash_collision(
    spec: Spec,
    param: Seq<u8>,
    message: Seq<u8>,
    signature1: SignatureView,
    signature2: SignatureView,
    root: Seq<u8>,
    i: int,
)
    requires
        spec_verify_signature(spec, param, message, signature1, root),
        spec_verify_signature(spec, param, message, signature2, root),
        signature1.public_key == signature2.public_key,
        signature1.signature.nonce == signature2.signature.nonce,
        0 <= i < signature1.public_key.end_hashes.len(),
        signature1.signature.hashes[i] != signature2.signature.hashes[i],
    ensures
        spec_keccak_collision(),
{
    let pk = signature1.public_key;
    let coords = spec_codeword(spec, pk.param, message, signature1.signature.nonce);
    assert(pk.end_hashes[i] == spec_completed_chain(
        spec,
        pk.param,
        i as nat,
        signature1.signature.hashes[i],
        coords[i],
    ));
    assert(pk.end_hashes[i] == spec_completed_chain(
        spec,
        pk.param,
        i as nat,
        signature2.signature.hashes[i],
        coords[i],
    ));
    lemma_hash_chain_collision(
        pk.param,
        i as nat,
        signature1.signature.hashes[i],
        signature2.signature.hashes[i],
        coords[i] as nat,
        (spec.spec_chain_len() - 1 - coords[i]) as nat,
    );
}

/// Verifies a one-time signature for `message` under a one-time public key.
///
/// Rebuilds the codeword from the message and the nonce, completes each
/// chain from the hash that the signature gives, at the position that the
/// codeword gives, and compares the ends with the public key.
pub fn verify_one_time_signature(
    spec: &Spec,
    pk: &Pk,
    signature: &OtsSignature,
    message: &Message,
) -> (ok: bool)
    requires
        spec.wf(),
    ensures
        ok == spec_verify_one_time(*spec, message@, signature@, pk@),
{
    let codeword = match new_valid(spec, &pk.param, message, &signature.nonce) {
        Some(codeword) => codeword,
        None => {
            return false;
        },
    };
    let chain_len = spec.chain_len();
    let coords = codeword.coords();
    let hashes = &signature.hashes;
    let checked = if hashes.len() <= coords.len() {
        hashes.len()
    } else {
        coords.len()
    };
    if pk.end_hashes.len() != checked {
        return false;
    }
    let mut chain_index: usize = 0;
    while chain_index < checked
        invariant
            chain_index <= checked,
            checked == spec_checked_chains(coords@, hash_views(hashes@)),
            checked == pk.end_hashes@.len(),
            chain_len == spec.spec_chain_len(),
            hashes == &signature.hashes,
            coords@ == spec_codeword(*spec, pk.param@, message@, signature.nonce@),
            forall|i: int| 0 <= i < coords@.len() ==> coords@[i] < chain_len,
            forall|i: int|
                0 <= i < chain_index ==> #[trigger] hash_views(pk.end_hashes@)[i]
                    == spec_completed_chain(
                    *spec,
                    pk.param@,
                    i as nat,
                    hash_views(hashes@)[i],
                    coords@[i],
                ),
        decreases checked - chain_index,
    {
        let hash_pos = coords[chain_index] as usize;
        let end = hash_chain(
            &pk.param,
            chain_index,
            hashes[chain_index],
            hash_pos,
            chain_len - 1 - hash_pos,
        );
        if !(end == pk.end_hashes[chain_index]) {
            assert(hash_views(pk.end_hashes@)[chain_index as int] != spec_completed_chain(
                *spec,
                pk.param@,
                chain_index as nat,
                hash_views(hashes@)[chain_index as int],
                coords@[chain_index as int],
            ));
            return false;
        }
        chain_index += 1;
    }
    true
}

/// Verifies a signature for `message` against the root of a signer.
///
/// Verifies the one-time signature under the public key that comes with
/// it, then checks that this public key is a leaf of the tree with the
/// given root: hashes it into a leaf and follows the path.
pub fn verify_signature(
    spec: &Spec,
    param: &Param,
    message: &Message,
    signature: &Signature,
    root: &crate::hash::Hash,
) -> (ok: bool)
    requires
        spec.wf(),
    ensures
        ok == spec_verify_signature(*spec, param@, message@, signature@, root@),
{
    let pk = &signature.public_key;
    if !verify_one_time_signature(spec, pk, &signature.signature, message) {
        return false;
    }
    let leaf_hash = tweak_public_key_hash(param, pk);
    signature.hash_tree_proof.verify(param, &leaf_hash, root)
}

} // verus!
