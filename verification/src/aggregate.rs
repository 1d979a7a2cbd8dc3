//! Verifying the signatures of many signers on one message.
//!
//! An aggregated signature is a list of signatures, each with the root and
//! the parameter of its signer. It is accepted when every one of them comes
//! from a registered root and is accepted under that root.

use crate::hash::hash_views;
use crate::signature::{spec_verify_signature, verify_signature, Signature, SignatureView};
use crate::spec::Spec;
use crate::types::{Message, Param};
use vstd::prelude::*;

verus! {

/// What the signature of one validator holds.
pub struct ValidatorSignatureView {
    pub epoch: nat,
    pub signature: SignatureView,
    pub xmss_root: Seq<u8>,
    pub param: Seq<u8>,
}

/// The signature of one validator.
#[derive(Debug)]
pub struct ValidatorSignature {
    /// The epoch that the validator signed at. It is carried along and
    /// plays no part in verification.
    pub epoch: usize,
    /// The signature.
    pub signature: Signature,
    /// The root that the signature is to be verified against.
    pub xmss_root: crate::hash::Hash,
    /// The parameter of the validator.
    pub param: Param,
}

impl View for ValidatorSignature {
    type V = ValidatorSignatureView;

    open spec fn view(&self) -> ValidatorSignatureView {
        ValidatorSignatureView {
            epoch: self.epoch as nat,
            signature: self.signature@,
            xmss_root: self.xmss_root@,
            param: self.param@,
        }
    }
}

impl Clone for ValidatorSignature {
    fn clone(&self) -> (res: Self)
        ensures
            res@ == self@,
    {
        ValidatorSignature {
            epoch: self.epoch,
            signature: self.signature.clone(),
            xmss_root: self.xmss_root,
            param: self.param.clone(),
        }
    }
}

/// The signatures of several validators on one message, in the order given.
#[derive(Debug)]
pub struct AggregatedSignature {
    /// The signature of each validator.
    pub signatures: Vec<ValidatorSignature>,
}

impl View for AggregatedSignature {
    type V = Seq<ValidatorSignatureView>;

    open spec fn view(&self) -> Seq<ValidatorSignatureView> {
        Seq::new(self.signatures@.len(), |i: int| self.signatures@[i]@)
    }
}

impl AggregatedSignature {
    /// The aggregated signature that holds the given signatures.
    pub fn new(signatures: Vec<ValidatorSignature>) -> (aggregated: AggregatedSignature)
        ensures
            aggregated.signatures == signatures,
    {
        AggregatedSignature { signatures }
    }
}

impl Clone for AggregatedSignature {
    fn clone(&self) -> (res: Self)
        ensures
            res@ == self@,
    {
        let mut signatures: Vec<ValidatorSignature> = Vec::new();
        let mut i: usize = 0;
        while i < self.signatures.len()
            invariant
                i <= self.signatures@.len(),
                signatures@.len() == i,
                forall|j: int| 0 <= j < i ==> (#[trigger] signatures@[j])@ == self.signatures@[j]@,
            decreases self.signatures@.len() - i,
        {
            signatures.push(self.signatures[i].clone());
            i += 1;
        }
        let res = AggregatedSignature { signatures };
        assert(res@ =~= self@);
        res
    }
}

/// What an aggregate verifier holds.
pub struct AggregatedVerifierView {
    pub roots: Seq<Seq<u8>>,
    pub spec: Spec,
}

/// Whether the signature of one validator is accepted: its root is among
/// the registered roots, and the signature is accepted for the message
/// under that root and the parameter that comes with it.
pub open spec fn spec_verify_validator(
    verifier: AggregatedVerifierView,
    message: Seq<u8>,
    signature: ValidatorSignatureView,
) -> bool {
    &&& verifier.roots.contains(signature.xmss_root)
    &&& spec_verify_signature(
        verifier.spec,
        signature.param,
        message,
        signature.signature,
        signature.xmss_root,
    )
}

/// Whether an aggregated signature is accepted: every signature in it is.
pub open spec fn spec_verify_aggregated(
    verifier: AggregatedVerifierView,
    message: Seq<u8>,
    aggregated: Seq<ValidatorSignatureView>,
) -> bool {
    forall|i: int|
        0 <= i < aggregated.len() ==> spec_verify_validator(
            verifier,
            message,
            #[trigger] aggregated[i],
        )
}

/// An aggregated signature without signatures is accepted, whatever the
/// roots.
pub proof fn lemma_empty_aggregate_accepted(verifier: AggregatedVerifierView, message: Seq<u8>)
    ensures
        spec_verify_aggregated(verifier, message, Seq::<ValidatorSignatureView>::empty()),
{
}

/// With no root registered, every aggregated signature that holds a
/// signature is rejected.
pub proof fn lemma_no_roots_rejects(
    verifier: AggregatedVerifierView,
    message: Seq<u8>,
    aggregated: Seq<ValidatorSignatureView>,
)
    requires
        verifier.roots.len() == 0,
        aggregated.len() > 0,
    ensures
        !spec_verify_aggregated(verifier, message, aggregated),
{
    assert(!spec_verify_validator(verifier, message, aggregated[0]));
}

/// Where another signature fails, the aggregate fails: one rejected
/// signature rejects the whole, wherever it stands.
pub proof fn lemma_one_rejection_rejects(
    verifier: AggregatedVerifierView,
    message: Seq<u8>,
    aggregated: Seq<ValidatorSignatureView>,
    i: int,
)
    requires
        0 <= i < aggregated.len(),
        !spec_verify_validator(verifier, message, aggregated[i]),
    ensures
        !spec_verify_aggregated(verifier, message, aggregated),
{
}

/// The roots of the registered validators, and the instantiation that
/// their signatures are verified under.
#[derive(Debug)]
pub struct AggregatedVerifier {
    roots: Vec<crate::hash::Hash>,
    spec: Spec,
}

impl View for AggregatedVerifier {
    type V = AggregatedVerifierView;

    closed spec fn view(&self) -> AggregatedVerifierView {
        AggregatedVerifierView { roots: hash_views(self.roots@), spec: self.spec }
    }
}

impl Clone for AggregatedVerifier {
    fn clone(&self) -> (res: Self)
        ensures
            res@ == self@,
    {
        AggregatedVerifier {
            roots: crate::hash::clone_hashes(&self.roots),
            spec: self.spec.clone(),
        }
    }
}

impl AggregatedVerifier {
    /// The verifier for the validators with the given roots. A root may
    /// occur more than once.
    pub fn new(roots: Vec<crate::hash::Hash>, spec: Spec) -> (verifier: AggregatedVerifier)
        ensures
            verifier@.roots == hash_views(roots@),
            verifier@.spec == spec,
    {
        AggregatedVerifier { roots, spec }
    }

    /// Whether `root` is among the registered roots, byte for byte.
    fn is_registered(&self, root: &crate::hash::Hash) -> (found: bool)
        ensures
            found == self@.roots.contains(root@),
    {
        let mut i: usize = 0;
        while i < self.roots.len()
            invariant
                i <= self.roots@.len(),
                forall|j: int| 0 <= j < i ==> hash_views(self.roots@)[j] != root@,
            decreases self.roots@.len() - i,
        {
            if self.roots[i] == *root {
                assert(hash_views(self.roots@)[i as int] == root@);
                return true;
            }
            i += 1;
        }
        false
    }

    /// Verifies an aggregated signature on `message`: accepts when every
    /// signature in it comes from a registered root and is accepted under
    /// that root.
    pub fn verify(&self, message: &Message, aggregated: &AggregatedSignature) -> (ok: bool)
        requires
            self@.spec.wf(),
        ensures
            ok == spec_verify_aggregated(self@, message@, aggregated@),
            aggregated@.len() == 0 ==> ok,
            self@.roots.len() == 0 && aggregated@.len() > 0 ==> !ok,
    {
        let mut i: usize = 0;
        while i < aggregated.signatures.len()
            invariant
                i <= aggregated.signatures@.len(),
                self@.spec.wf(),
                forall|j: int|
                    0 <= j < i ==> spec_verify_validator(self@, message@, #[trigger] aggregated@[j]),
            decreases aggregated.signatures@.len() - i,
        {
            let sig = &aggregated.signatures[i];
            let accepted = self.is_registered(&sig.xmss_root) && verify_signature(
                &self.spec,
                &sig.param,
                message,
                &sig.signature,
                &sig.xmss_root,
            );
            if !accepted {
                assert(!spec_verify_validator(self@, message@, aggregated@[i as int]));
                return false;
            }
            i += 1;
        }
        proof {
            if self@.roots.len() == 0 && aggregated@.len() > 0 {
                lemma_no_roots_rejects(self@, message@, aggregated@);
            }
        }
        true
    }
}

} // verus!
