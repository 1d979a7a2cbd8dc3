//! The signer: a fixed number of one-time key pairs under one Merkle root.
//!
//! A signer is made with all its key pairs, one for each epoch of its
//! lifetime. The public keys are hashed into the leaves of a tree, whose
//! root is what the signer publishes. Signing at an epoch uses the key pair
//! of that epoch; each epoch must sign at most one message, which is left to
//! the caller.

use crate::code::{
    grind,
    lemma_codeword_bounds,
    new_valid,
    spec_codeword,
    spec_codeword_valid,
    spec_sum,
    Codeword,
};
use crate::hash::{hash_views, spec_tweak_public_key_hash, tweak_public_key_hash};
use crate::hash_chain::{hash_chain, lemma_hash_chain_compose, spec_hash_chain};
use crate::hash_tree::{
    lemma_path_verifies,
    spec_is_power_of_two,
    spec_merkle_root,
    spec_path,
    spec_tree_levels,
    HashTree,
    HashTreeProofView,
};
use crate::keys::{spec_derive, Pk, PkView, Sk, SkView};
use crate::signature::{
    spec_checked_chains,
    spec_verify_signature,
    OtsSignature,
    OtsSignatureView,
    Signature,
    SignatureView,
};
use crate::spec::Spec;
use crate::types::{Message, Nonce, Param};
use rand::rngs::StdRng;
use vstd::prelude::*;

verus! {

/// What a signer holds, but for the state of its generator.
pub struct SignerView {
    pub max_retries: nat,
    pub spec: Spec,
    pub param: Seq<u8>,
    pub levels: Seq<Seq<Seq<u8>>>,
    pub key_pairs: Seq<(SkView, PkView)>,
    pub root: Seq<u8>,
}

impl SignerView {
    /// The number of epochs.
    pub open spec fn lifetime(self) -> nat {
        self.key_pairs.len()
    }

    /// The leaves of the tree: the hash of the public key of each epoch.
    pub open spec fn leaves(self) -> Seq<Seq<u8>> {
        Seq::new(
            self.key_pairs.len(),
            |epoch: int| spec_tweak_public_key_hash(self.param, self.key_pairs[epoch].1.end_hashes),
        )
    }

    /// What holds of every signer: the lifetime is a power of two; each
    /// secret key has one chain start for each chain and carries the
    /// signer's parameter; each public key is derived from its secret key;
    /// and the tree is the one over the public keys, with its root.
    pub open spec fn wf(self) -> bool {
        &&& self.spec.wf()
        &&& spec_is_power_of_two(self.key_pairs.len())
        &&& forall|epoch: int|
            0 <= epoch < self.key_pairs.len() ==> {
                let pair = #[trigger] self.key_pairs[epoch];
                &&& pair.0.param == self.param
                &&& pair.0.start_hashes.len() == self.spec.spec_dimension()
                &&& pair.1 == spec_derive(pair.0, self.spec)
            }
        &&& self.levels == spec_tree_levels(self.param, self.leaves())
        &&& self.root == spec_merkle_root(self.param, self.leaves())
    }
}

/// The hashes of a one-time signature: on each chain, the hash
/// `coords[i]` steps from the start.
pub open spec fn spec_intermediate_hashes(sk: SkView, coords: Seq<u8>) -> Seq<Seq<u8>> {
    Seq::new(
        spec_checked_chains(coords, sk.start_hashes),
        |i: int| spec_hash_chain(sk.param, i as nat, sk.start_hashes[i], 0, coords[i] as nat),
    )
}

/// The signature of a signer at `epoch` for the codeword with coordinates
/// `coords`, which `nonce` gave.
pub open spec fn spec_signature(
    signer: SignerView,
    epoch: nat,
    coords: Seq<u8>,
    nonce: Seq<u8>,
) -> SignatureView {
    SignatureView {
        signature: OtsSignatureView {
            nonce,
            hashes: spec_intermediate_hashes(signer.key_pairs[epoch as int].0, coords),
        },
        hash_tree_proof: HashTreeProofView {
            leaf_index: epoch,
            path: spec_path(signer.levels, epoch),
        },
        public_key: signer.key_pairs[epoch as int].1,
    }
}

/// What signing `message` at `epoch` gives when the nonce drawn is `nonce`:
/// a signature if the nonce makes the codeword valid, and nothing if not.
pub open spec fn spec_sign(
    signer: SignerView,
    epoch: nat,
    message: Seq<u8>,
    nonce: Seq<u8>,
) -> Option<SignatureView> {
    let param = signer.key_pairs[epoch as int].0.param;
    if spec_codeword_valid(signer.spec, param, message, nonce) {
        Some(
            spec_signature(
                signer,
                epoch,
                spec_codeword(signer.spec, param, message, nonce),
                nonce,
            ),
        )
    } else {
        None
    }
}

/// Every signature that a signer gives is accepted under its parameter and
/// its root, for the message that was signed; and the codeword behind it has
/// one coordinate for each chain, each a position on its chain, with the
/// target sum.
pub proof fn lemma_signature_verifies(
    signer: SignerView,
    epoch: nat,
    message: Seq<u8>,
    nonce: Seq<u8>,
)
    requires
        signer.wf(),
        epoch < signer.lifetime(),
        spec_sign(signer, epoch, message, nonce) is Some,
    ensures
        spec_verify_signature(
            signer.spec,
            signer.param,
            message,
            spec_sign(signer, epoch, message, nonce)->0,
            signer.root,
        ),
        spec_codeword(signer.spec, signer.param, message, nonce).len()
            == signer.spec.spec_dimension(),
        forall|i: int|
            0 <= i < signer.spec.spec_dimension() ==> #[trigger] spec_codeword(
                signer.spec,
                signer.param,
                message,
                nonce,
            )[i] < signer.spec.spec_chain_len(),
        spec_sum(spec_codeword(signer.spec, signer.param, message, nonce))
            == signer.spec.target_sum,
{
    let spec = signer.spec;
    let pair = signer.key_pairs[epoch as int];
    let sk = pair.0;
    let pk = pair.1;
    let coords = spec_codeword(spec, signer.param, message, nonce);
    let sig = spec_sign(signer, epoch, message, nonce)->0;
    lemma_codeword_bounds(spec, signer.param, message, nonce);
    spec.lemma_wf_bounds();
    let chain_len = spec.spec_chain_len();
    assert forall|i: int| 0 <= i < spec_checked_chains(coords, sig.signature.hashes) implies
        #[trigger] pk.end_hashes[i] == crate::signature::spec_completed_chain(
        spec,
        pk.param,
        i as nat,
        sig.signature.hashes[i],
        coords[i],
    ) by {
        assert(coords[i] < chain_len);
        lemma_hash_chain_compose(
            sk.param,
            i as nat,
            sk.start_hashes[i],
            0,
            coords[i] as nat,
            (chain_len - 1 - coords[i]) as nat,
        );
    }
    lemma_path_verifies(signer.param, signer.leaves(), epoch);
}

/// A signer with its key pairs, its tree and its generator.
pub struct Signer {
    rng: StdRng,
    max_retries: usize,
    /// The instantiation of the scheme.
    pub spec: Spec,
    /// The parameter that all hashes of this signer are framed with.
    pub param: Param,
    hash_tree: HashTree,
    key_pairs: Vec<(Sk, Pk)>,
    /// The root of the tree over the one-time public keys: what the signer
    /// publishes.
    pub root: crate::hash::Hash,
}

impl View for Signer {
    type V = SignerView;

    closed spec fn view(&self) -> SignerView {
        SignerView {
            max_retries: self.max_retries as nat,
            spec: self.spec,
            param: self.param@,
            levels: self.hash_tree.level_views(),
            key_pairs: Seq::new(
                self.key_pairs@.len(),
                |epoch: int| (self.key_pairs@[epoch].0@, self.key_pairs@[epoch].1@),
            ),
            root: self.root@,
        }
    }
}

impl Signer {
    /// What holds of a signer between calls: its view is well formed, and
    /// its tree has the shape of a tree.
    pub closed spec fn wf(&self) -> bool {
        &&& self@.wf()
        &&& self.hash_tree.well_shaped()
        &&& self.hash_tree.spec_num_leaves() == self.key_pairs@.len()
    }

    /// A well-formed signer has a well-formed view.
    pub proof fn lemma_wf_view(&self)
        requires
            self.wf(),
        ensures
            self@.wf(),
    {
    }

    /// The root that the signer publishes.
    pub fn root(&self) -> (root: crate::hash::Hash)
        ensures
            root@ == self@.root,
    {
        self.root
    }

    /// The parameter of the signer.
    pub fn param(&self) -> (param: Param)
        ensures
            param@ == self@.param,
    {
        self.param.clone()
    }

    /// Makes a signer with `lifetime` one-time key pairs.
    ///
    /// Draws the parameter from the generator first, then the secret key of
    /// each epoch in turn, derives the public keys, and builds the tree over
    /// them. The generator stays with the signer for the nonces.
    pub fn new(rng: StdRng, max_retries: usize, spec: Spec, lifetime: usize) -> (signer: Signer)
        requires
            spec.wf(),
            spec_is_power_of_two(lifetime as nat),
            lifetime <= u32::MAX,
        ensures
            signer.wf(),
            signer@.spec == spec,
            signer@.max_retries == max_retries,
            signer@.lifetime() == lifetime,
            signer@.param.len() == spec.param_len,
    {
        let mut rng = rng;
        let param = Param::random(spec.param_len, &mut rng);
        let mut key_pairs: Vec<(Sk, Pk)> = Vec::new();
        let mut epoch: usize = 0;
        while epoch < lifetime
            invariant
                epoch <= lifetime,
                spec.wf(),
                key_pairs@.len() == epoch,
                forall|e: int|
                    0 <= e < epoch ==> {
                        let pair = #[trigger] key_pairs@[e];
                        &&& pair.0@.param == param@
                        &&& pair.0@.start_hashes.len() == spec.spec_dimension()
                        &&& pair.1@ == spec_derive(pair.0@, spec)
                    },
            decreases lifetime - epoch,
        {
            let sk = Sk::random(&mut rng, param.clone(), &spec);
            let pk = Pk::derive(&sk, &spec);
            key_pairs.push((sk, pk));
            epoch += 1;
        }
        let mut pub_key_hashes: Vec<crate::hash::Hash> = Vec::new();
        let mut i: usize = 0;
        while i < lifetime
            invariant
                i <= lifetime,
                key_pairs@.len() == lifetime,
                pub_key_hashes@.len() == i,
                forall|e: int|
                    0 <= e < i ==> (#[trigger] pub_key_hashes@[e])@ == spec_tweak_public_key_hash(
                        param@,
                        key_pairs@[e].1@.end_hashes,
                    ),
            decreases lifetime - i,
        {
            pub_key_hashes.push(tweak_public_key_hash(&param, &key_pairs[i].1));
            i += 1;
        }
        let ghost leaves = hash_views(pub_key_hashes@);
        let hash_tree = HashTree::new(&param, pub_key_hashes);
        let root = hash_tree.root;
        let signer = Signer { rng, max_retries, spec, param, hash_tree, key_pairs, root };
        proof {
            assert(signer@.leaves() =~= leaves);
        }
        signer
    }

    /// The signature at `epoch` for a codeword and the nonce that gave it:
    /// walks each chain from its start to the position that the codeword
    /// gives, and adds the path and the public key of the epoch.
    fn complete_signature(&self, epoch: usize, codeword: &Codeword, nonce: Nonce) -> (signature:
        Signature)
        requires
            self.wf(),
            epoch < self@.lifetime(),
        ensures
            signature@ == spec_signature(self@, epoch as nat, codeword@, nonce@),
    {
        let sk = &self.key_pairs[epoch].0;
        let pk = &self.key_pairs[epoch].1;
        let start_hashes = sk.start_hashes();
        let coords = codeword.coords();
        let signed = if start_hashes.len() <= coords.len() {
            start_hashes.len()
        } else {
            coords.len()
        };
        let mut hashes: Vec<crate::hash::Hash> = Vec::new();
        let mut chain_index: usize = 0;
        while chain_index < signed
            invariant
                chain_index <= signed,
                signed <= start_hashes@.len(),
                signed <= coords@.len(),
                hash_views(start_hashes@) == sk@.start_hashes,
                hashes@.len() == chain_index,
                forall|i: int|
                    0 <= i < chain_index ==> (#[trigger] hashes@[i])@ == spec_hash_chain(
                        sk@.param,
                        i as nat,
                        sk@.start_hashes[i],
                        0,
                        coords@[i] as nat,
                    ),
            decreases signed - chain_index,
        {
            let start_pos = coords[chain_index] as usize;
            hashes.push(
                hash_chain(sk.param(), chain_index, start_hashes[chain_index], 0, start_pos),
            );
            chain_index += 1;
        }
        let signature = OtsSignature { nonce, hashes };
        let hash_tree_proof = self.hash_tree.get_proof(epoch);
        let public_key = pk.clone();
        let res = Signature { signature, hash_tree_proof, public_key };
        proof {
            let expected = spec_signature(self@, epoch as nat, codeword@, nonce@);
            assert(res@.signature.hashes =~= expected.signature.hashes);
            assert(res@.hash_tree_proof == expected.hash_tree_proof);
        }
        res
    }

    /// Signs `message` at `epoch` with the given nonce, if that nonce makes
    /// the codeword valid.
    pub fn sign_with_nonce(&self, epoch: usize, message: &Message, nonce: Nonce) -> (res: Option<
        Signature,
    >)
        requires
            self.wf(),
            epoch < self@.lifetime(),
        ensures
            res is Some <==> spec_sign(self@, epoch as nat, message@, nonce@) is Some,
            res matches Some(signature) ==> Some(signature@) == spec_sign(
                self@,
                epoch as nat,
                message@,
                nonce@,
            ),
            res matches Some(signature) ==> spec_verify_signature(
                self@.spec,
                self@.param,
                message@,
                signature@,
                self@.root,
            ),
    {
        let sk = &self.key_pairs[epoch].0;
        match new_valid(&self.spec, sk.param(), message, &nonce) {
            Some(codeword) => {
                let signature = self.complete_signature(epoch, &codeword, nonce);
                proof {
                    lemma_signature_verifies(self@, epoch as nat, message@, nonce@);
                }
                Some(signature)
            },
            None => None,
        }
    }

    /// Signs `message` with the key pair of `epoch`. The signer keeps no
    /// record of the epochs that have signed: it is for the caller to use
    /// each epoch once.
    ///
    /// Draws nonces from the signer's generator until one makes the
    /// codeword valid, at most `max_retries` times, and gives nothing if
    /// none did. Whatever comes back is the signature for the nonce that it
    /// carries, and is accepted under the signer's parameter and root;
    /// nothing comes back only without an attempt or after a nonce that
    /// gives no signature. Nothing of the signer changes but its generator.
    pub fn sign(&mut self, epoch: usize, message: &Message) -> (res: Option<Signature>)
        requires
            old(self).wf(),
            epoch < old(self)@.lifetime(),
        ensures
            final(self).wf(),
            final(self)@ == old(self)@,
            old(self)@.max_retries == 0 ==> res is None,
            res is None && old(self)@.max_retries > 0 ==> exists|nonce: Nonce| #[trigger]
                spec_sign(old(self)@, epoch as nat, message@, nonce@) is None,
            res matches Some(signature) ==> Some(signature@) == spec_sign(
                old(self)@,
                epoch as nat,
                message@,
                signature@.signature.nonce,
            ),
            res matches Some(signature) ==> spec_verify_signature(
                old(self)@.spec,
                old(self)@.param,
                message@,
                signature@,
                old(self)@.root,
            ),
    {
        let ground = grind(
            &self.spec,
            self.max_retries,
            self.key_pairs[epoch].0.param(),
            message,
            &mut self.rng,
        );
        match ground {
            Some((codeword, nonce)) => {
                let signature = self.complete_signature(epoch, &codeword, nonce);
                proof {
                    lemma_signature_verifies(self@, epoch as nat, message@, nonce@);
                }
                Some(signature)
            },
            None => {
                proof {
                    if self@.max_retries > 0 {
                        let param = self@.key_pairs[epoch as int].0.param;
                        let nonce = choose|nonce: Nonce| !#[trigger] spec_codeword_valid(
                            self@.spec,
                            param,
                            message@,
                            nonce@,
                        );
                        assert(spec_sign(self@, epoch as nat, message@, nonce@) is None);
                    }
                }
                None
            },
        }
    }
}

} // verus!
