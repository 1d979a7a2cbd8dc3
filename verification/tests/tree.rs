use leansig::hash::tweak_hash_tree_node;
use leansig::hash_tree::{HashTree, HashTreeProof};
use leansig::Param;

fn leaf(i: usize) -> leansig::hash::Hash {
    let mut bytes = [0u8; 32];
    bytes[0] = i as u8;
    bytes[1] = (i >> 8) as u8;
    bytes[31] = 0xee;
    leansig::hash::Hash(bytes)
}

fn leaves(n: usize) -> Vec<leansig::hash::Hash> {
    (0..n).map(leaf).collect()
}

#[test]
fn tree_of_one_leaf_is_that_leaf() {
    let param = Param::new(vec![1; 18]);
    let tree = HashTree::new(&param, leaves(1));
    assert_eq!(tree.levels.len(), 1);
    assert_eq!(tree.root, leaf(0));
    let proof = tree.get_proof(0);
    assert_eq!(proof.leaf_index(), 0);
    assert!(proof.path.is_empty());
    assert!(proof.verify(&param, &leaf(0), &tree.root));
    assert!(!proof.verify(&param, &leaf(1), &tree.root));
}

#[test]
fn tree_of_two_leaves_hashes_them_at_level_zero() {
    let param = Param::new(vec![1; 18]);
    let tree = HashTree::new(&param, leaves(2));
    assert_eq!(tree.levels.len(), 2);
    assert_eq!(
        tree.root,
        tweak_hash_tree_node(&param, &leaf(0), &leaf(1), 0, 0)
    );
    assert_eq!(tree.get_proof(0).path, vec![leaf(1)]);
    assert_eq!(tree.get_proof(1).path, vec![leaf(0)]);
}

#[test]
fn tree_levels_follow_the_recurrence() {
    let param = Param::new(vec![2; 18]);
    let tree = HashTree::new(&param, leaves(8));
    assert_eq!(tree.levels.len(), 4);
    assert_eq!(tree.levels[0], leaves(8));
    for k in 0..3 {
        assert_eq!(tree.levels[k + 1].len(), tree.levels[k].len() / 2);
        for j in 0..tree.levels[k + 1].len() {
            let expected = tweak_hash_tree_node(
                &param,
                &tree.levels[k][2 * j],
                &tree.levels[k][2 * j + 1],
                k as u32,
                j as u32,
            );
            assert_eq!(tree.levels[k + 1][j], expected);
        }
    }
    assert_eq!(tree.levels[3].len(), 1);
    assert_eq!(tree.root, tree.levels[3][0]);
}

#[test]
fn proof_holds_the_siblings_of_the_ancestors() {
    let param = Param::new(vec![2; 18]);
    let tree = HashTree::new(&param, leaves(8));
    let proof = tree.get_proof(5);
    assert_eq!(proof.leaf_index(), 5);
    assert_eq!(
        proof.path,
        vec![tree.levels[0][4], tree.levels[1][3], tree.levels[2][0]]
    );
    let proof = tree.get_proof(0);
    assert_eq!(
        proof.path,
        vec![tree.levels[0][1], tree.levels[1][1], tree.levels[2][1]]
    );
}

#[test]
fn every_leaf_is_proved_and_no_other_leaf_in_its_place() {
    let param = Param::new(vec![3; 18]);
    for n in [1usize, 2, 4, 8, 16, 64] {
        let tree = HashTree::new(&param, leaves(n));
        let height = n.trailing_zeros() as usize;
        for i in 0..n {
            let proof = tree.get_proof(i);
            assert_eq!(proof.path.len(), height);
            assert!(proof.verify(&param, &leaf(i), &tree.root));
            for j in 0..n {
                if j != i {
                    assert!(!proof.verify(&param, &leaf(j), &tree.root));
                }
            }
        }
    }
}

#[test]
fn proof_fails_under_another_param_root_index_or_path() {
    let param = Param::new(vec![3; 18]);
    let tree = HashTree::new(&param, leaves(8));
    let proof = tree.get_proof(6);
    assert!(proof.verify(&param, &leaf(6), &tree.root));

    let other_param = Param::new(vec![4; 18]);
    assert!(!proof.verify(&other_param, &leaf(6), &tree.root));

    let mut other_root = tree.root;
    other_root.0[0] ^= 1;
    assert!(!proof.verify(&param, &leaf(6), &other_root));

    for index in 0..8 {
        let moved = HashTreeProof::new(index, proof.path.clone());
        assert_eq!(moved.verify(&param, &leaf(6), &tree.root), index == 6);
    }

    for k in 0..proof.path.len() {
        let mut path = proof.path.clone();
        path[k].0[7] ^= 0x10;
        let tampered = HashTreeProof::new(6, path);
        assert!(!tampered.verify(&param, &leaf(6), &tree.root));
    }

    let mut short = proof.path.clone();
    short.pop();
    assert!(!HashTreeProof::new(6, short).verify(&param, &leaf(6), &tree.root));
    let mut long = proof.path.clone();
    long.push(leaf(0));
    assert!(!HashTreeProof::new(6, long).verify(&param, &leaf(6), &tree.root));
}

#[test]
fn proof_walk_places_the_node_by_the_low_bit_of_its_index() {
    let param = Param::new(vec![3; 18]);
    let current = leaf(1);
    let sibling = leaf(2);
    let even = HashTreeProof::new(4, vec![sibling]);
    let odd = HashTreeProof::new(5, vec![sibling]);
    let left = tweak_hash_tree_node(&param, &current, &sibling, 0, 2);
    let right = tweak_hash_tree_node(&param, &sibling, &current, 0, 2);
    assert!(even.verify(&param, &current, &left));
    assert!(!even.verify(&param, &current, &right));
    assert!(odd.verify(&param, &current, &right));
    assert!(!odd.verify(&param, &current, &left));
}

#[test]
fn proof_clone_keeps_index_and_path() {
    let param = Param::new(vec![3; 18]);
    let tree = HashTree::new(&param, leaves(4));
    let proof = tree.get_proof(2);
    let copy = proof.clone();
    assert_eq!(copy.leaf_index(), 2);
    assert_eq!(copy.path, proof.path);
}
