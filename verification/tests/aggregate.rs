use leansig::spec::spec_2;
use leansig::{AggregatedSignature, AggregatedVerifier, Message, Signer, ValidatorSignature};
use rand::rngs::StdRng;
use rand::SeedableRng;

fn validator(seed: u64, message: &Message) -> ValidatorSignature {
    let mut signer = Signer::new(StdRng::seed_from_u64(seed), 100_000, spec_2(), 2);
    let signature = signer.sign(0, message).expect("Failed to sign");
    ValidatorSignature {
        epoch: 0,
        signature,
        xmss_root: signer.root,
        param: signer.param.clone(),
    }
}

#[test]
fn empty_aggregate_is_accepted() {
    let message = Message([42; 32]);
    let empty = AggregatedSignature::new(Vec::new());
    assert!(AggregatedVerifier::new(Vec::new(), spec_2()).verify(&message, &empty));
    let one = validator(1, &message);
    assert!(AggregatedVerifier::new(vec![one.xmss_root], spec_2()).verify(&message, &empty));
}

#[test]
fn aggregate_against_no_roots_is_rejected() {
    let message = Message([42; 32]);
    let verifier = AggregatedVerifier::new(Vec::new(), spec_2());
    let aggregated = AggregatedSignature::new(vec![validator(1, &message)]);
    assert!(!verifier.verify(&message, &aggregated));
    let aggregated = AggregatedSignature::new(vec![validator(1, &message), validator(2, &message)]);
    assert!(!verifier.verify(&message, &aggregated));
}

#[test]
fn unregistered_root_is_rejected() {
    let message = Message([42; 32]);
    let one = validator(1, &message);
    let two = validator(2, &message);
    let verifier = AggregatedVerifier::new(vec![one.xmss_root], spec_2());
    assert!(verifier.verify(&message, &AggregatedSignature::new(vec![one.clone()])));
    assert!(!verifier.verify(&message, &AggregatedSignature::new(vec![two.clone()])));
    assert!(!verifier.verify(&message, &AggregatedSignature::new(vec![one.clone(), two.clone()])));
    assert!(!verifier.verify(&message, &AggregatedSignature::new(vec![two, one])));
}

#[test]
fn registered_root_does_not_excuse_another_signer() {
    let message = Message([42; 32]);
    let one = validator(1, &message);
    let two = validator(2, &message);
    let verifier = AggregatedVerifier::new(vec![one.xmss_root, two.xmss_root], spec_2());
    let mut swapped = one.clone();
    swapped.xmss_root = two.xmss_root;
    assert!(!verifier.verify(&message, &AggregatedSignature::new(vec![swapped])));
}

#[test]
fn duplicate_roots_and_signatures_are_accepted() {
    let message = Message([42; 32]);
    let one = validator(1, &message);
    let verifier = AggregatedVerifier::new(vec![one.xmss_root, one.xmss_root], spec_2());
    let aggregated = AggregatedSignature::new(vec![one.clone(), one]);
    assert!(verifier.verify(&message, &aggregated));
    assert!(verifier.clone().verify(&message, &aggregated.clone()));
}

#[test]
fn order_of_signatures_does_not_matter() {
    let message = Message([42; 32]);
    let one = validator(1, &message);
    let two = validator(2, &message);
    let three = validator(3, &message);
    let verifier = AggregatedVerifier::new(
        vec![three.xmss_root, one.xmss_root, two.xmss_root],
        spec_2(),
    );
    assert!(verifier.verify(
        &message,
        &AggregatedSignature::new(vec![one.clone(), two.clone(), three.clone()])
    ));
    assert!(verifier.verify(&message, &AggregatedSignature::new(vec![three, one, two])));
}

#[test]
fn one_bad_signature_rejects_the_aggregate() {
    let message = Message([42; 32]);
    let one = validator(1, &message);
    let two = validator(2, &message);
    let bad = validator(3, &Message([99; 32]));
    let verifier = AggregatedVerifier::new(
        vec![one.xmss_root, two.xmss_root, bad.xmss_root],
        spec_2(),
    );
    for position in 0..3 {
        let mut signatures = vec![one.clone(), two.clone()];
        signatures.insert(position, bad.clone());
        assert!(!verifier.verify(&message, &AggregatedSignature::new(signatures)));
    }
    assert!(verifier.verify(&Message([99; 32]), &AggregatedSignature::new(vec![bad])));
}

#[test]
fn epoch_field_plays_no_part() {
    let message = Message([42; 32]);
    let mut one = validator(1, &message);
    let verifier = AggregatedVerifier::new(vec![one.xmss_root], spec_2());
    one.epoch = 12345;
    assert!(verifier.verify(&message, &AggregatedSignature::new(vec![one])));
}
