use leansig::code::Codeword;
use leansig::hash::{
    tweak_hash_chain, tweak_hash_message, tweak_hash_tree_node, tweak_public_key_hash,
};
use leansig::hash_chain::hash_chain;
use leansig::hash_tree::HashTree;
use leansig::spec::spec_2;
use leansig::sponge::Keccak256;
use leansig::{Message, Nonce, Param, Pk};

fn unhex(s: &str) -> Vec<u8> {
    (0..s.len() / 2)
        .map(|i| u8::from_str_radix(&s[2 * i..2 * i + 2], 16).unwrap())
        .collect()
}

fn counting_hash() -> leansig::hash::Hash {
    let mut bytes = [0u8; 32];
    for (i, b) in bytes.iter_mut().enumerate() {
        *b = i as u8;
    }
    leansig::hash::Hash(bytes)
}

#[test]
fn known_message_hash() {
    let param = Param::new(vec![7; 18]);
    let hash = tweak_hash_message(&param, &Message([10; 32]), &Nonce([3; 23]));
    assert_eq!(
        hash.0.to_vec(),
        unhex("a251192defd03b94c5b4e694301679c6e91cb85c381d97aedd43b43cb8e7484b")
    );
}

#[test]
fn known_chain_hash() {
    let param = Param::new(vec![7; 18]);
    let hash = tweak_hash_chain(&param, 0x0102, 9, counting_hash());
    assert_eq!(
        hash.0.to_vec(),
        unhex("c62ab5301f83eb5fa54b1227e05a6b9e27a7cb393d06174b0763311eb4ef7327")
    );
}

#[test]
fn known_tree_node_hash() {
    let param = Param::new(vec![7; 18]);
    let left = leansig::hash::Hash([1; 32]);
    let right = leansig::hash::Hash([2; 32]);
    let hash = tweak_hash_tree_node(&param, &left, &right, 3, 256);
    assert_eq!(
        hash.0.to_vec(),
        unhex("0dce407ba5b4a49000095b812a88f0d202c6bb9ad21b967e6b81841006a0be92")
    );
}

#[test]
fn known_public_key_hash() {
    let param = Param::new(vec![7; 18]);
    let pk = Pk {
        param: param.clone(),
        end_hashes: vec![
            leansig::hash::Hash([1; 32]),
            leansig::hash::Hash([2; 32]),
            counting_hash(),
        ],
    };
    assert_eq!(
        tweak_public_key_hash(&param, &pk).0.to_vec(),
        unhex("b351fc1ed460ea7920cc3ca21c22482ebd47aa65ebf2629fb046b693e0b1fa4c")
    );
}

#[test]
fn known_hash_chain_walk() {
    let param = Param::new(vec![7; 18]);
    let end = hash_chain(&param, 5, counting_hash(), 2, 3);
    assert_eq!(
        end.0.to_vec(),
        unhex("d9032a0811e9d25c33cd6d93e4198ce727f257d432cac8553cf5dc94da550721")
    );
}

#[test]
fn known_tree_root() {
    let param = Param::new(vec![7; 18]);
    let leaves = (0..4u8).map(|i| leansig::hash::Hash([i; 32])).collect();
    let tree = HashTree::new(&param, leaves);
    assert_eq!(
        tree.root.0.to_vec(),
        unhex("bf7ef8640e5fd936b2391107898a91046e574f3aace72749b5646bbbb895026a")
    );
}

#[test]
fn known_codeword() {
    let param = Param::new(vec![7; 18]);
    let codeword = Codeword::new(&spec_2(), &param, &Message([10; 32]), &Nonce([3; 23]));
    let expected: [u8; 36] = [
        2, 10, 1, 5, 9, 1, 13, 2, 15, 14, 0, 13, 11, 3, 4, 9, 5, 12, 4, 11, 6, 14, 4, 9, 0, 3, 6,
        1, 9, 7, 6, 12, 9, 14, 12, 1,
    ];
    assert_eq!(codeword.coords(), &expected[..]);
    assert_eq!(codeword.sum(), 257);
    assert!(leansig::code::new_valid(&spec_2(), &param, &Message([10; 32]), &Nonce([3; 23])).is_none());
}

#[test]
fn known_sponge_digest_of_a_block_less_one() {
    let mut hasher = Keccak256::new();
    hasher.update(&[0x5a; 135]);
    assert_eq!(
        hasher.finalize().to_vec(),
        unhex("03c527855334eb2e62b3b9b4d02ab76721707d3dde5fb218369640ee2edc7f3a")
    );
}
