use leansig::sponge::{v256, Keccak256};
use tiny_keccak::{Hasher, Keccak};

fn reference(input: &[u8]) -> [u8; 32] {
    let mut hasher = Keccak::v256();
    hasher.update(input);
    let mut out = [0u8; 32];
    hasher.finalize(&mut out);
    out
}

fn unhex(s: &str) -> Vec<u8> {
    (0..s.len() / 2)
        .map(|i| u8::from_str_radix(&s[2 * i..2 * i + 2], 16).unwrap())
        .collect()
}

#[test]
fn sponge_digest_of_empty_input() {
    let digest = Keccak256::new().finalize();
    assert_eq!(
        digest.to_vec(),
        unhex("c5d2460186f7233c927e7db2dcc703c0e500b653ca82273b7bfad8045d85a470")
    );
}

#[test]
fn sponge_digest_of_abc() {
    let mut hasher = v256();
    hasher.update(b"abc");
    assert_eq!(
        hasher.finalize().to_vec(),
        unhex("4e03657aea45a94fc7d47ba826c8d667c0d1e6e33a64a036ec44f58fa12d6c45")
    );
}

#[test]
fn sponge_agrees_with_the_hasher_at_every_length() {
    let input: Vec<u8> = (0..600u32).map(|i| (i * 7 + 3) as u8).collect();
    for len in 0..=input.len() {
        let mut hasher = Keccak256::new();
        hasher.update(&input[..len]);
        assert_eq!(hasher.finalize(), reference(&input[..len]), "length {}", len);
    }
}

#[test]
fn sponge_pads_a_full_block_less_one_with_one_byte() {
    for len in [135usize, 271, 407] {
        let input = vec![0x5au8; len];
        let mut hasher = Keccak256::new();
        hasher.update(&input);
        assert_eq!(hasher.finalize(), reference(&input), "length {}", len);
    }
}

#[test]
fn sponge_updates_concatenate() {
    let input: Vec<u8> = (0..300u32).map(|i| (i * 13) as u8).collect();
    for split in [0usize, 1, 17, 135, 136, 137, 299, 300] {
        let mut hasher = Keccak256::new();
        hasher.update(&input[..split]);
        hasher.update(&input[split..]);
        assert_eq!(hasher.finalize(), reference(&input), "split {}", split);
    }
}
