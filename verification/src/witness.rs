//! Ready-made inputs for the aggregate verifier: a set of validators that
//! all sign one message at one epoch.

use crate::aggregate::{
    spec_verify_aggregated,
    spec_verify_validator,
    AggregatedSignature,
    AggregatedVerifierView,
    ValidatorSignature,
};
use crate::hash::hash_views;
use crate::rng::seeded_rng;
use crate::signer::Signer;
use crate::spec::Spec;
use crate::types::{Message, Param};
use vstd::arithmetic::power2::pow2;
use vstd::prelude::*;

verus! {

/// What the verifier of an aggregated signature is told in the open.
#[derive(Debug)]
pub struct PublicInputs {
    /// The message that all validators signed.
    pub message: Message,
    /// The epoch at which all validators signed.
    pub epoch: usize,
    /// The root of each validator.
    pub validator_roots: Vec<crate::hash::Hash>,
    /// The parameter of each validator.
    pub validator_params: Vec<Param>,
    /// The instantiation of the scheme.
    pub spec: Spec,
}

/// Public inputs together with an aggregated signature that fits them.
#[derive(Debug)]
pub struct XmssTestData {
    pub public_inputs: PublicInputs,
    pub aggregated_signature: AggregatedSignature,
}

/// The message that is signed where none is given.
pub open spec fn spec_default_message() -> Seq<u8> {
    Seq::new(32, |i: int| 42u8)
}

/// Makes `num_validators` signers, each with `2^tree_height` epochs, and
/// has each of them sign the message at the epoch.
///
/// Validator `i` draws from the generator with seed `i + 1`. Where no
/// message is given, the message is 32 bytes of 42; where no epoch is
/// given, the epoch is 0. If the nonces of one validator run out, nothing
/// is returned. What is returned is accepted by the verifier for the roots
/// that come with it.
pub fn create_test_data(
    num_validators: usize,
    spec: Spec,
    tree_height: usize,
    max_retries: usize,
    message: Option<Message>,
    epoch: Option<usize>,
) -> (res: Option<XmssTestData>)
    requires
        spec.wf(),
        tree_height < 32,
        num_validators > 0 ==> (match epoch {
            Some(e) => e,
            None => 0,
        }) < pow2(tree_height as nat),
    ensures
        num_validators == 0 ==> res is Some,
        max_retries == 0 && num_validators > 0 ==> res is None,
        res matches Some(data) ==> {
            &&& data.public_inputs.message@ == (match message {
                Some(m) => m@,
                None => spec_default_message(),
            })
            &&& data.public_inputs.epoch == (match epoch {
                Some(e) => e,
                None => 0,
            })
            &&& data.public_inputs.spec == spec
            &&& data.public_inputs.validator_roots@.len() == num_validators
            &&& data.public_inputs.validator_params@.len() == num_validators
            &&& data.aggregated_signature@.len() == num_validators
            &&& forall|i: int|
                0 <= i < num_validators ==> {
                    let signature = #[trigger] data.aggregated_signature@[i];
                    &&& signature.epoch == data.public_inputs.epoch
                    &&& signature.xmss_root == data.public_inputs.validator_roots@[i]@
                    &&& signature.param == data.public_inputs.validator_params@[i]@
                }
            &&& spec_verify_aggregated(
                AggregatedVerifierView {
                    roots: hash_views(data.public_inputs.validator_roots@),
                    spec,
                },
                data.public_inputs.message@,
                data.aggregated_signature@,
            )
        },
{
    let message = match message {
        Some(m) => m,
        None => {
            let m = Message([42u8;32]);
            assert(m@ =~= spec_default_message());
            m
        },
    };
    let epoch = match epoch {
        Some(e) => e,
        None => 0,
    };
    proof {
        vstd::arithmetic::power2::lemma2_to64();
        vstd::bits::lemma_usize_pow2_no_overflow(tree_height as nat);
        vstd::bits::lemma_usize_shl_is_mul(1usize, tree_height);
        crate::hash_tree::lemma_pow2_is_power_of_two(tree_height as nat);
        if tree_height < 31 {
            vstd::arithmetic::power2::lemma_pow2_strictly_increases(tree_height as nat, 31);
        }
    }
    let lifetime: usize = 1usize << tree_height;

    let mut validators: Vec<Signer> = Vec::new();
    let mut i: usize = 0;
    while i < num_validators
        invariant
            i <= num_validators,
            spec.wf(),
            lifetime == pow2(tree_height as nat),
            lifetime <= u32::MAX,
            crate::hash_tree::spec_is_power_of_two(lifetime as nat),
            validators@.len() == i,
            forall|j: int|
                0 <= j < i ==> {
                    let v = #[trigger] validators@[j];
                    &&& v.wf()
                    &&& v@.spec == spec
                    &&& v@.max_retries == max_retries
                    &&& v@.lifetime() == lifetime
                },
        decreases num_validators - i,
    {
        let rng = seeded_rng(i as u64 + 1);
        validators.push(Signer::new(rng, max_retries, spec.clone(), lifetime));
        i += 1;
    }

    let mut validator_roots: Vec<crate::hash::Hash> = Vec::new();
    let mut validator_params: Vec<Param> = Vec::new();
    let mut validator_signatures: Vec<ValidatorSignature> = Vec::new();
    let mut i: usize = 0;
    while i < num_validators
        invariant
            i <= num_validators,
            validators@.len() == num_validators,
            num_validators > 0 ==> epoch < lifetime,
            forall|j: int|
                0 <= j < num_validators ==> {
                    let v = #[trigger] validators@[j];
                    &&& v.wf()
                    &&& v@.spec == spec
                    &&& v@.max_retries == max_retries
                    &&& v@.lifetime() == lifetime
                },
            validator_roots@.len() == i,
            validator_params@.len() == i,
            validator_signatures@.len() == i,
            i > 0 ==> max_retries > 0,
            forall|j: int|
                0 <= j < i ==> {
                    let signature = (#[trigger] validator_signatures@[j])@;
                    &&& signature.epoch == epoch
                    &&& signature.xmss_root == validator_roots@[j]@
                    &&& signature.param == validator_params@[j]@
                    &&& crate::signature::spec_verify_signature(
                        spec,
                        signature.param,
                        message@,
                        signature.signature,
                        signature.xmss_root,
                    )
                },
        decreases num_validators - i,
    {
        let root = validators[i].root();
        let param = validators[i].param();
        let signed = validators[i].sign(epoch, &message);
        let signature = match signed {
            Some(signature) => signature,
            None => {
                return None;
            },
        };
        validator_roots.push(root);
        validator_params.push(param.clone());
        validator_signatures.push(ValidatorSignature { epoch, signature, xmss_root: root, param });
        i += 1;
    }
    let aggregated_signature = AggregatedSignature::new(validator_signatures);
    let data = XmssTestData {
        public_inputs: PublicInputs { message, epoch, validator_roots, validator_params, spec },
        aggregated_signature,
    };
    proof {
        let verifier = AggregatedVerifierView {
            roots: hash_views(data.public_inputs.validator_roots@),
            spec,
        };
        assert forall|j: int| 0 <= j < data.aggregated_signature@.len() implies spec_verify_validator(
            verifier,
            message@,
            #[trigger] data.aggregated_signature@[j],
        ) by {
            assert(verifier.roots[j] == data.aggregated_signature@[j].xmss_root);
        }
    }
    Some(data)
}

} // verus!
