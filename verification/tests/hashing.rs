use leansig::encoding::{be_bytes_u32, be_bytes_u64};
use leansig::hash::{
    tweak_hash_chain, tweak_hash_message, tweak_hash_tree_node, tweak_public_key_hash,
};
use leansig::hash_chain::hash_chain;
use leansig::{Message, Nonce, Param, Pk};
use rand::rngs::StdRng;
use rand::{RngCore, SeedableRng};
use tiny_keccak::{Hasher, Keccak};

fn keccak(input: &[u8]) -> [u8; 32] {
    let mut hasher = Keccak::v256();
    hasher.update(input);
    let mut out = [0u8; 32];
    hasher.finalize(&mut out);
    out
}

fn sample_hash(seed: u8) -> leansig::hash::Hash {
    let mut bytes = [0u8; 32];
    for (i, b) in bytes.iter_mut().enumerate() {
        *b = seed.wrapping_mul(31).wrapping_add(i as u8);
    }
    leansig::hash::Hash(bytes)
}

#[test]
fn be_bytes_are_most_significant_first() {
    assert_eq!(be_bytes_u32(0x0102_0304), [1, 2, 3, 4]);
    assert_eq!(be_bytes_u32(0), [0, 0, 0, 0]);
    assert_eq!(be_bytes_u32(u32::MAX), [255, 255, 255, 255]);
    assert_eq!(be_bytes_u64(0x0102_0304_0506_0708), [1, 2, 3, 4, 5, 6, 7, 8]);
    assert_eq!(be_bytes_u64(1), [0, 0, 0, 0, 0, 0, 0, 1]);
    assert_eq!(be_bytes_u64(u64::MAX), [255; 8]);
    for x in [0u64, 1, 255, 256, 65_535, 1 << 32, 0xdead_beef_0bad_f00d] {
        assert_eq!(be_bytes_u64(x), x.to_be_bytes());
        assert_eq!(be_bytes_u32(x as u32), (x as u32).to_be_bytes());
    }
}

#[test]
fn hash_equality_is_bytewise() {
    let a = sample_hash(1);
    let mut b = a;
    assert!(a == b);
    b.0[31] ^= 1;
    assert!(a != b);
    b.0[31] ^= 1;
    b.0[0] ^= 0x80;
    assert!(a != b);
    assert_eq!(a.as_ref(), &a.0[..]);
}

#[test]
fn message_hash_frames_param_tweak_nonce_message() {
    let param = Param::new(vec![7u8; 18]);
    let message = Message([10; 32]);
    let nonce = Nonce([3; 23]);
    let mut input = vec![7u8; 18];
    input.push(0x02);
    input.extend_from_slice(&[3u8; 23]);
    input.extend_from_slice(&[10u8; 32]);
    assert_eq!(input.len(), 74);
    assert_eq!(tweak_hash_message(&param, &message, &nonce).0, keccak(&input));
}

#[test]
fn message_hash_of_empty_param() {
    let param = Param::new(Vec::new());
    let message = Message([0; 32]);
    let nonce = Nonce([0; 23]);
    let mut input = vec![0x02u8];
    input.extend_from_slice(&[0u8; 55]);
    assert_eq!(tweak_hash_message(&param, &message, &nonce).0, keccak(&input));
}

#[test]
fn chain_hash_frames_param_tweak_prev_index_position() {
    let param = Param::new((0u8..18).collect());
    let prev = sample_hash(5);
    let mut input: Vec<u8> = (0u8..18).collect();
    input.push(0x00);
    input.extend_from_slice(&prev.0);
    input.extend_from_slice(&[0, 0, 0, 0, 0, 0, 0x01, 0x02]);
    input.extend_from_slice(&[0, 0, 0, 0, 0, 0, 0, 0x09]);
    assert_eq!(tweak_hash_chain(&param, 0x0102, 9, prev).0, keccak(&input));
}

#[test]
fn tree_node_hash_frames_param_tweak_level_index_children() {
    let param = Param::new(vec![0xaa; 18]);
    let left = sample_hash(1);
    let right = sample_hash(2);
    let mut input = vec![0xaau8; 18];
    input.push(0x01);
    input.extend_from_slice(&[0, 0, 0, 3]);
    input.extend_from_slice(&[0, 0, 1, 0]);
    input.extend_from_slice(&left.0);
    input.extend_from_slice(&right.0);
    assert_eq!(
        tweak_hash_tree_node(&param, &left, &right, 3, 256).0,
        keccak(&input)
    );
    assert!(
        tweak_hash_tree_node(&param, &left, &right, 3, 256)
            != tweak_hash_tree_node(&param, &right, &left, 3, 256)
    );
}

#[test]
fn public_key_hash_frames_param_tweak_end_hashes() {
    let param = Param::new(vec![1, 2, 3]);
    let end_hashes = vec![sample_hash(1), sample_hash(2), sample_hash(3)];
    let mut input = vec![1u8, 2, 3, 0x01];
    for h in &end_hashes {
        input.extend_from_slice(&h.0);
    }
    let pk = Pk {
        param: Param::new(vec![9, 9]),
        end_hashes,
    };
    assert_eq!(tweak_public_key_hash(&param, &pk).0, keccak(&input));
}

#[test]
fn public_key_hash_without_end_hashes() {
    let param = Param::new(vec![1, 2, 3]);
    let pk = Pk {
        param: Param::new(vec![1, 2, 3]),
        end_hashes: Vec::new(),
    };
    assert_eq!(tweak_public_key_hash(&param, &pk).0, keccak(&[1, 2, 3, 0x01]));
}

#[test]
fn hash_chain_of_zero_steps_is_the_start() {
    let param = Param::new(vec![4; 18]);
    for start_pos in [0usize, 1, 7, 15, 1000] {
        let start = sample_hash(start_pos as u8);
        assert_eq!(hash_chain(&param, 3, start, start_pos, 0), start);
    }
}

#[test]
fn hash_chain_step_uses_the_position_of_its_output() {
    let param = Param::new(vec![4; 18]);
    let start = sample_hash(9);
    assert_eq!(
        hash_chain(&param, 2, start, 0, 1),
        tweak_hash_chain(&param, 2, 1, start)
    );
    assert_eq!(
        hash_chain(&param, 2, start, 5, 1),
        tweak_hash_chain(&param, 2, 6, start)
    );
    let two = tweak_hash_chain(&param, 2, 7, tweak_hash_chain(&param, 2, 6, start));
    assert_eq!(hash_chain(&param, 2, start, 5, 2), two);
}

#[test]
fn hash_chain_walks_compose() {
    let param = Param::new(vec![8; 18]);
    let start = sample_hash(11);
    for p in [0usize, 3] {
        for k1 in 0usize..5 {
            for k2 in 0usize..5 {
                let first = hash_chain(&param, 7, start, p, k1);
                let both = hash_chain(&param, 7, first, p + k1, k2);
                assert_eq!(both, hash_chain(&param, 7, start, p, k1 + k2));
            }
        }
    }
}

#[test]
fn hash_chain_depends_on_chain_index_and_position() {
    let param = Param::new(vec![8; 18]);
    let start = sample_hash(11);
    assert!(hash_chain(&param, 0, start, 0, 3) != hash_chain(&param, 1, start, 0, 3));
    assert!(hash_chain(&param, 0, start, 0, 3) != hash_chain(&param, 0, start, 1, 3));
}

#[test]
fn hash_from_bytes_keeps_the_bytes_in_order() {
    let bytes: Vec<u8> = (0..32u8).map(|i| i.wrapping_mul(9).wrapping_add(1)).collect();
    let hash = leansig::hash::Hash::from_bytes(&bytes);
    assert_eq!(hash.0[..], bytes[..]);
    assert_eq!(hash.0[0], 1);
    assert_eq!(hash.0[31], 24);
    assert_eq!(leansig::hash::Hash::from_bytes(&[0u8; 32]).0, [0u8; 32]);
}

#[test]
fn nonce_from_bytes_keeps_the_bytes_in_order() {
    let bytes: Vec<u8> = (0..23u8).map(|i| 200 - i).collect();
    let nonce = Nonce::from_bytes(&bytes);
    assert_eq!(nonce.0[..], bytes[..]);
    assert_eq!(nonce.0[0], 200);
    assert_eq!(nonce.0[22], 178);
}

#[test]
fn random_hash_and_nonce_are_the_bytes_drawn() {
    let mut rng = StdRng::seed_from_u64(17);
    let hash = leansig::hash::Hash::random(&mut rng);
    let nonce = Nonce::random(&mut rng);
    let mut replay = StdRng::seed_from_u64(17);
    let mut drawn_hash = [0u8; 32];
    replay.fill_bytes(&mut drawn_hash);
    let mut drawn_nonce = [0u8; 23];
    replay.fill_bytes(&mut drawn_nonce);
    assert_eq!(hash.0, drawn_hash);
    assert_eq!(nonce.0, drawn_nonce);
    assert_eq!(hash, leansig::hash::Hash::from_bytes(&drawn_hash));
}
