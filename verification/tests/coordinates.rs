use bitvec::field::BitField;
use bitvec::order::Lsb0;
use bitvec::view::BitView;
use leansig::code::{bytes_to_coordinates, grind, new_valid, Codeword};
use leansig::hash::tweak_hash_message;
use leansig::spec::{spec_1, spec_2, Spec};
use leansig::{Message, Nonce, Param};
use rand::rngs::StdRng;
use rand::SeedableRng;

fn pack(coords: &[u8], w: usize) -> Vec<u8> {
    let per = 8 / w;
    coords
        .chunks(per)
        .map(|digits| {
            let mut byte = 0u32;
            for (k, d) in digits.iter().enumerate() {
                byte += (*d as u32) << (k * w);
            }
            byte as u8
        })
        .collect()
}

fn sample_bytes(len: usize) -> Vec<u8> {
    (0..len).map(|i| (i * 37 + 11) as u8).collect()
}

#[test]
fn coordinates_of_one_bit_each() {
    let coords = bytes_to_coordinates(&[0b01101100, 0b00000001], 1);
    assert_eq!(coords, vec![0, 0, 1, 1, 0, 1, 1, 0, 1, 0, 0, 0, 0, 0, 0, 0]);
}

#[test]
fn coordinates_of_four_bits_each() {
    let coords = bytes_to_coordinates(&[0xa5, 0x0f, 0xf0], 4);
    assert_eq!(coords, vec![0x5, 0xa, 0xf, 0x0, 0x0, 0xf]);
}

#[test]
fn coordinates_of_no_bytes() {
    for w in [1usize, 2, 4, 8] {
        assert_eq!(bytes_to_coordinates(&[], w), Vec::<u8>::new());
    }
}

#[test]
fn coordinates_count_and_range() {
    let bytes = sample_bytes(18);
    for w in [1usize, 2, 4, 8] {
        let coords = bytes_to_coordinates(&bytes, w);
        assert_eq!(coords.len(), 18 * 8 / w);
        assert!(coords.iter().all(|c| (*c as usize) < (1 << w)));
    }
}

#[test]
fn coordinates_of_all_byte_values_pack_back() {
    let bytes: Vec<u8> = (0..=255u8).collect();
    for w in [1usize, 2, 4, 8] {
        let coords = bytes_to_coordinates(&bytes, w);
        assert_eq!(pack(&coords, w), bytes);
    }
}

#[test]
fn packed_coordinates_cut_back() {
    for w in [1usize, 2, 4, 8] {
        let per = 8 / w;
        let coords: Vec<u8> = (0..per * 40)
            .map(|i| ((i * 5 + 1) % (1 << w)) as u8)
            .collect();
        assert_eq!(bytes_to_coordinates(&pack(&coords, w), w), coords);
    }
}

#[test]
fn coordinates_agree_with_bit_slices() {
    let bytes = sample_bytes(64);
    for w in [1usize, 2, 4, 8] {
        let expected: Vec<u8> = bytes
            .view_bits::<Lsb0>()
            .chunks_exact(w)
            .map(|coordinate| coordinate.load::<u8>())
            .collect();
        assert_eq!(bytes_to_coordinates(&bytes, w), expected);
    }
}

#[test]
fn codeword_is_cut_from_the_truncated_message_hash() {
    let param = Param::new(vec![5; 18]);
    let message = Message([10; 32]);
    let nonce = Nonce([1; 23]);
    for spec in [spec_1(), spec_2()] {
        let codeword = Codeword::new(&spec, &param, &message, &nonce);
        let hash = tweak_hash_message(&param, &message, &nonce);
        let expected = bytes_to_coordinates(&hash.0[..18], spec.coordinate_resolution_bits);
        assert_eq!(codeword.coords(), &expected[..]);
        assert_eq!(codeword.dimension(), spec.dimension());
        let sum: usize = expected.iter().map(|c| *c as usize).sum();
        assert_eq!(codeword.sum(), sum);
    }
}

#[test]
fn codeword_of_whole_hash_at_eight_bits() {
    let spec = Spec {
        message_hash_len: 32,
        coordinate_resolution_bits: 8,
        param_len: 4,
        target_sum: 0,
    };
    let param = Param::new(vec![1, 2, 3, 4]);
    let message = Message([7; 32]);
    let nonce = Nonce([9; 23]);
    let codeword = Codeword::new(&spec, &param, &message, &nonce);
    let hash = tweak_hash_message(&param, &message, &nonce);
    assert_eq!(codeword.coords(), &hash.0[..]);
    assert_eq!(codeword.dimension(), 32);
}

#[test]
fn codeword_of_empty_message_hash() {
    let spec = Spec {
        message_hash_len: 0,
        coordinate_resolution_bits: 4,
        param_len: 4,
        target_sum: 0,
    };
    let param = Param::new(vec![1, 2, 3, 4]);
    let codeword = Codeword::new(&spec, &param, &Message([7; 32]), &Nonce([9; 23]));
    assert_eq!(codeword.dimension(), 0);
    assert_eq!(codeword.sum(), 0);
    assert!(new_valid(&spec, &param, &Message([7; 32]), &Nonce([9; 23])).is_some());
}

#[test]
fn new_valid_accepts_exactly_the_target_sum() {
    let param = Param::new(vec![5; 18]);
    let message = Message([10; 32]);
    let spec = spec_2();
    let mut found = 0;
    let mut rejected = 0;
    for counter in 0..2000u32 {
        let mut bytes = [0u8; 23];
        bytes[..4].copy_from_slice(&counter.to_le_bytes());
        let nonce = Nonce(bytes);
        let sum = Codeword::new(&spec, &param, &message, &nonce).sum();
        match new_valid(&spec, &param, &message, &nonce) {
            Some(codeword) => {
                assert_eq!(sum, 297);
                assert_eq!(codeword.sum(), 297);
                assert_eq!(codeword.dimension(), 36);
                assert!(codeword.coords().iter().all(|c| *c < 16));
                found += 1;
            }
            None => {
                assert_ne!(sum, 297);
                rejected += 1;
            }
        }
    }
    assert!(found > 0);
    assert!(rejected > 0);
}

#[test]
fn grind_without_attempts_gives_nothing() {
    let param = Param::new(vec![5; 18]);
    let message = Message([10; 32]);
    for seed in 0..4u64 {
        let mut rng = StdRng::seed_from_u64(seed);
        assert!(grind(&spec_2(), 0, &param, &message, &mut rng).is_none());
        assert!(grind(&spec_1(), 0, &param, &message, &mut rng).is_none());
    }
}

#[test]
fn grind_without_attempts_even_where_every_codeword_is_valid() {
    let spec = Spec {
        message_hash_len: 0,
        coordinate_resolution_bits: 2,
        param_len: 4,
        target_sum: 0,
    };
    let param = Param::new(vec![5; 4]);
    let mut rng = StdRng::seed_from_u64(0);
    assert!(grind(&spec, 0, &param, &Message([1; 32]), &mut rng).is_none());
    assert!(grind(&spec, 1, &param, &Message([1; 32]), &mut rng).is_some());
}

#[test]
fn grind_gives_a_valid_codeword_with_its_nonce() {
    let param = Param::new(vec![5; 18]);
    let message = Message([10; 32]);
    let spec = spec_2();
    let mut rng = StdRng::seed_from_u64(7);
    let (codeword, nonce) = grind(&spec, 100_000, &param, &message, &mut rng).expect("no nonce");
    assert_eq!(codeword.sum(), spec.target_sum);
    let again = Codeword::new(&spec, &param, &message, &nonce);
    assert_eq!(again.coords(), codeword.coords());
}

#[test]
fn grind_draws_the_nonces_in_order() {
    let param = Param::new(vec![5; 18]);
    let message = Message([10; 32]);
    let spec = spec_2();
    let mut rng = StdRng::seed_from_u64(7);
    let (_, nonce) = grind(&spec, 100_000, &param, &message, &mut rng).expect("no nonce");
    let mut replay = StdRng::seed_from_u64(7);
    let mut attempts = 0;
    loop {
        let candidate = Nonce::random(&mut replay);
        attempts += 1;
        if new_valid(&spec, &param, &message, &candidate).is_some() {
            assert_eq!(candidate.0, nonce.0);
            break;
        }
        assert!(attempts < 100_000);
    }
    assert!(grind(&spec, attempts - 1, &param, &message, &mut StdRng::seed_from_u64(7)).is_none());
    assert!(grind(&spec, attempts, &param, &message, &mut StdRng::seed_from_u64(7)).is_some());
}

#[test]
fn grind_with_unreachable_target_gives_up() {
    let spec = Spec {
        message_hash_len: 18,
        coordinate_resolution_bits: 4,
        param_len: 18,
        target_sum: 541,
    };
    let param = Param::new(vec![5; 18]);
    let mut rng = StdRng::seed_from_u64(1);
    assert!(grind(&spec, 200, &param, &Message([10; 32]), &mut rng).is_none());
}

#[test]
fn spec_derived_quantities() {
    assert_eq!(spec_1().dimension(), 72);
    assert_eq!(spec_1().num_chains(), 72);
    assert_eq!(spec_1().chain_len(), 4);
    assert_eq!(spec_1().target_sum, 119);
    assert_eq!(spec_2().dimension(), 36);
    assert_eq!(spec_2().num_chains(), 36);
    assert_eq!(spec_2().chain_len(), 16);
    assert_eq!(spec_2().target_sum, 297);
    let spec = Spec {
        message_hash_len: 5,
        coordinate_resolution_bits: 3,
        param_len: 0,
        target_sum: 0,
    };
    assert_eq!(spec.dimension(), 13);
    assert_eq!(spec.chain_len(), 8);
    let cloned = spec_2().clone();
    assert_eq!(cloned.message_hash_len, 18);
    assert_eq!(cloned.param_len, 18);
}
