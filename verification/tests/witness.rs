use leansig::spec::{spec_1, spec_2};
use leansig::witness::create_test_data;
use leansig::{AggregatedVerifier, Message, Signer};
use rand::rngs::StdRng;
use rand::SeedableRng;

#[test]
fn test_create_test_data_with_custom_message() {
    let custom_message = Message([99; 32]);
    let data = create_test_data(2, spec_1(), 8, 10000, Some(custom_message.clone()), None)
        .expect("Failed to sign");
    let public_inputs = data.public_inputs;
    assert_eq!(public_inputs.message.0, custom_message.0);
    assert_eq!(public_inputs.validator_roots.len(), 2);
}

#[test]
fn test_create_test_data_with_custom_epoch() {
    let custom_epoch = 5;
    let data = create_test_data(2, spec_1(), 8, 10000, None, Some(custom_epoch))
        .expect("Failed to sign");
    let public_inputs = data.public_inputs;
    let aggregated = data.aggregated_signature;
    assert_eq!(public_inputs.epoch, custom_epoch);
    assert_eq!(aggregated.signatures[0].epoch, custom_epoch);
}

#[test]
fn test_data_defaults_to_message_42_at_epoch_0() {
    let data = create_test_data(3, spec_2(), 2, 10000, None, None).expect("Failed to sign");
    assert_eq!(data.public_inputs.message.0, [42u8; 32]);
    assert_eq!(data.public_inputs.epoch, 0);
    assert_eq!(data.public_inputs.validator_roots.len(), 3);
    assert_eq!(data.public_inputs.validator_params.len(), 3);
    assert_eq!(data.aggregated_signature.signatures.len(), 3);
    assert_eq!(data.public_inputs.spec.target_sum, 297);
}

#[test]
fn test_data_is_accepted_by_the_verifier() {
    let data = create_test_data(3, spec_2(), 3, 10000, Some(Message([7; 32])), Some(6))
        .expect("Failed to sign");
    let verifier = AggregatedVerifier::new(
        data.public_inputs.validator_roots.clone(),
        data.public_inputs.spec.clone(),
    );
    assert!(verifier.verify(&data.public_inputs.message, &data.aggregated_signature));
    assert!(!verifier.verify(&Message([8; 32]), &data.aggregated_signature));
    for (i, signature) in data.aggregated_signature.signatures.iter().enumerate() {
        assert_eq!(signature.epoch, 6);
        assert_eq!(signature.signature.hash_tree_proof.leaf_index(), 6);
        assert_eq!(signature.xmss_root, data.public_inputs.validator_roots[i]);
        assert_eq!(
            signature.param.as_ref(),
            data.public_inputs.validator_params[i].as_ref()
        );
    }
}

#[test]
fn test_data_validators_are_seeded_from_one() {
    let data = create_test_data(3, spec_2(), 1, 10000, None, None).expect("Failed to sign");
    for i in 0..3 {
        let signer = Signer::new(StdRng::seed_from_u64(i as u64 + 1), 10000, spec_2(), 2);
        assert_eq!(data.public_inputs.validator_roots[i], signer.root);
        assert_eq!(
            data.public_inputs.validator_params[i].as_ref(),
            signer.param.as_ref()
        );
    }
    assert!(data.public_inputs.validator_roots[0] != data.public_inputs.validator_roots[1]);
}

#[test]
fn test_data_without_validators() {
    let data = create_test_data(0, spec_2(), 0, 0, None, None).expect("nothing to sign");
    assert!(data.public_inputs.validator_roots.is_empty());
    assert!(data.aggregated_signature.signatures.is_empty());
}

#[test]
fn test_data_without_attempts() {
    assert!(create_test_data(1, spec_2(), 0, 0, None, None).is_none());
    assert!(create_test_data(2, spec_2(), 1, 0, None, Some(1)).is_none());
}
