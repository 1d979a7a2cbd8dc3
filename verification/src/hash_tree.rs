//! The Merkle tree that binds the one-time public keys of a signer to one
//! root, and the proofs that a leaf belongs to it.
//!
//! Level 0 holds the leaves. Node `j` of the level above level `k` is the
//! tweaked hash of nodes `2j` and `2j + 1` of level `k`, framed with `k` and
//! `j`. The one node of the last level is the root.

use crate::hash::{
    hash_views,
    lemma_tree_node_pair_collision,
    spec_keccak_collision,
    spec_tweak_hash_tree_node,
    tweak_hash_tree_node,
};
use crate::types::Param;
use vstd::arithmetic::power2::{
    lemma2_to64,
    lemma_pow2_pos,
    lemma_pow2_strictly_increases,
    lemma_pow2_unfold,
    pow2,
};
use vstd::prelude::*;

verus! {

/// How often `n` can be halved before it is 1: the height of a tree of `n`
/// leaves.
pub open spec fn spec_height(n: nat) -> nat
    decreases n,
{
    if n <= 1 {
        0
    } else {
        1 + spec_height(n / 2)
    }
}

/// Whether `n` is a power of two.
pub open spec fn spec_is_power_of_two(n: nat) -> bool {
    n == pow2(spec_height(n))
}

/// The index of the ancestor of node `index`, `k` levels up: `index / 2^k`.
pub open spec fn spec_ancestor(index: nat, k: nat) -> nat
    decreases k,
{
    if k == 0 {
        index
    } else {
        spec_ancestor(index, (k - 1) as nat) / 2
    }
}

/// The index of the other child of the parent of node `index`.
pub open spec fn spec_sibling(index: nat) -> nat {
    if index % 2 == 0 {
        index + 1
    } else {
        (index - 1) as nat
    }
}

/// The level above `children`, which is level `level`.
pub open spec fn spec_parent_level(param: Seq<u8>, children: Seq<Seq<u8>>, level: nat) -> Seq<
    Seq<u8>,
> {
    Seq::new(
        children.len() / 2,
        |j: int|
            spec_tweak_hash_tree_node(
                param,
                children[2 * j],
                children[2 * j + 1],
                level as u32,
                j as u32,
            ),
    )
}

/// Level `k` of the tree over `leaves`.
pub open spec fn spec_level(param: Seq<u8>, leaves: Seq<Seq<u8>>, k: nat) -> Seq<Seq<u8>>
    decreases k,
{
    if k == 0 {
        leaves
    } else {
        spec_parent_level(param, spec_level(param, leaves, (k - 1) as nat), (k - 1) as nat)
    }
}

/// All levels of the tree over `leaves`, from the leaves to the root.
pub open spec fn spec_tree_levels(param: Seq<u8>, leaves: Seq<Seq<u8>>) -> Seq<Seq<Seq<u8>>> {
    Seq::new(spec_height(leaves.len()) + 1, |k: int| spec_level(param, leaves, k as nat))
}

/// The root of the tree over `leaves`.
pub open spec fn spec_merkle_root(param: Seq<u8>, leaves: Seq<Seq<u8>>) -> Seq<u8> {
    spec_level(param, leaves, spec_height(leaves.len()))[0]
}

/// The authentication path of leaf `leaf_index` in a tree with the given
/// levels: at each level below the root, the sibling of the leaf's ancestor.
pub open spec fn spec_path(levels: Seq<Seq<Seq<u8>>>, leaf_index: nat) -> Seq<Seq<u8>> {
    Seq::new(
        (levels.len() - 1) as nat,
        |k: int| levels[k][spec_sibling(spec_ancestor(leaf_index, k as nat)) as int],
    )
}

/// The parent of `current`, which is node `index` of level `level`, given
/// its sibling: `current` stands left where `index` is even, right where it
/// is odd. The level and the index of the parent enter the hash as 32-bit
/// integers: of larger ones, the low 32 bits.
pub open spec fn spec_climb_step(
    param: Seq<u8>,
    current: Seq<u8>,
    sibling: Seq<u8>,
    index: nat,
    level: nat,
) -> Seq<u8> {
    if index % 2 == 0 {
        spec_tweak_hash_tree_node(param, current, sibling, level as u32, (index / 2) as u32)
    } else {
        spec_tweak_hash_tree_node(param, sibling, current, level as u32, (index / 2) as u32)
    }
}

/// The node reached from `leaf` at `leaf_index` after the first `k` steps
/// along `path`.
pub open spec fn spec_climb(
    param: Seq<u8>,
    leaf: Seq<u8>,
    leaf_index: nat,
    path: Seq<Seq<u8>>,
    k: nat,
) -> Seq<u8>
    decreases k,
{
    if k == 0 {
        leaf
    } else {
        spec_climb_step(
            param,
            spec_climb(param, leaf, leaf_index, path, (k - 1) as nat),
            path[k - 1],
            spec_ancestor(leaf_index, (k - 1) as nat),
            (k - 1) as nat,
        )
    }
}

/// What a membership proof holds.
pub struct HashTreeProofView {
    pub leaf_index: nat,
    pub path: Seq<Seq<u8>>,
}

/// Whether `proof` leads from `leaf` to `root`.
pub open spec fn spec_merkle_verify(
    param: Seq<u8>,
    proof: HashTreeProofView,
    leaf: Seq<u8>,
    root: Seq<u8>,
) -> bool {
    spec_climb(param, leaf, proof.leaf_index, proof.path, proof.path.len()) == root
}

/// Whether `n` is a power of two.
pub fn is_power_of_two(n: usize) -> (res: bool)
    ensures
        res == spec_is_power_of_two(n as nat),
{
    proof {
        lemma2_to64();
    }
    if n == 0 {
        return false;
    }
    let mut rest = n;
    while rest % 2 == 0
        invariant
            rest >= 1,
            spec_is_power_of_two(rest as nat) == spec_is_power_of_two(n as nat),
        decreases rest,
    {
        proof {
            lemma_pow2_unfold(spec_height(rest as nat));
        }
        rest = rest / 2;
    }
    proof {
        lemma2_to64();
        if rest > 1 {
            lemma_pow2_unfold(spec_height(rest as nat));
        }
    }
    rest == 1
}

/// Every `2^h` is a power of two, of height `h`.
pub proof fn lemma_pow2_is_power_of_two(h: nat)
    ensures
        spec_height(pow2(h)) == h,
        spec_is_power_of_two(pow2(h)),
    decreases h,
{
    lemma2_to64();
    if h > 0 {
        lemma_pow2_unfold(h);
        lemma_pow2_pos((h - 1) as nat);
        lemma_pow2_is_power_of_two((h - 1) as nat);
    }
}

/// Level `k` of a tree of `2^h` leaves has `2^(h - k)` nodes.
pub proof fn lemma_level_len(param: Seq<u8>, leaves: Seq<Seq<u8>>, k: nat)
    requires
        spec_is_power_of_two(leaves.len()),
        k <= spec_height(leaves.len()),
    ensures
        spec_level(param, leaves, k).len() == pow2((spec_height(leaves.len()) - k) as nat),
    decreases k,
{
    if k > 0 {
        lemma_level_len(param, leaves, (k - 1) as nat);
        lemma_pow2_unfold((spec_height(leaves.len()) - (k - 1)) as nat);
    }
}

/// The ancestor `k` levels up of a node of a level of `2^m` nodes, `k <= m`,
/// is a node of a level of `2^(m - k)` nodes.
pub proof fn lemma_ancestor_bound(index: nat, m: nat, k: nat)
    requires
        index < pow2(m),
        k <= m,
    ensures
        spec_ancestor(index, k) < pow2((m - k) as nat),
    decreases k,
{
    if k > 0 {
        lemma_ancestor_bound(index, m, (k - 1) as nat);
        lemma_pow2_unfold((m - (k - 1)) as nat);
    }
}

proof fn lemma_climb_follows_levels(param: Seq<u8>, leaves: Seq<Seq<u8>>, i: nat, k: nat)
    requires
        spec_is_power_of_two(leaves.len()),
        i < leaves.len(),
        k <= spec_height(leaves.len()),
    ensures
        spec_climb(
            param,
            leaves[i as int],
            i,
            spec_path(spec_tree_levels(param, leaves), i),
            k,
        ) == spec_level(param, leaves, k)[spec_ancestor(i, k) as int],
    decreases k,
{
    if k > 0 {
        let height = spec_height(leaves.len());
        let below = (k - 1) as nat;
        let path = spec_path(spec_tree_levels(param, leaves), i);
        let children = spec_level(param, leaves, below);
        let index = spec_ancestor(i, below);
        lemma_climb_follows_levels(param, leaves, i, below);
        lemma_level_len(param, leaves, below);
        lemma_ancestor_bound(i, height, below);
        lemma_ancestor_bound(i, height, k);
        lemma_pow2_unfold((height - below) as nat);
        assert(path[below as int] == children[spec_sibling(index) as int]);
        let parent = (index / 2) as int;
        assert(spec_level(param, leaves, k)[parent] == spec_tweak_hash_tree_node(
            param,
            children[2 * parent],
            children[2 * parent + 1],
            below as u32,
            parent as u32,
        ));
    }
}

/// Every leaf of a tree is proved by its authentication path: the path of
/// leaf `i` leads from that leaf to the root.
pub proof fn lemma_path_verifies(param: Seq<u8>, leaves: Seq<Seq<u8>>, i: nat)
    requires
        spec_is_power_of_two(leaves.len()),
        i < leaves.len(),
    ensures
        spec_merkle_verify(
            param,
            HashTreeProofView {
                leaf_index: i,
                path: spec_path(spec_tree_levels(param, leaves), i),
            },
            leaves[i as int],
            spec_merkle_root(param, leaves),
        ),
{
    let height = spec_height(leaves.len());
    lemma_climb_follows_levels(param, leaves, i, height);
    lemma_ancestor_bound(i, height, height);
    lemma2_to64();
}

proof fn lemma_climb_collision(
    param: Seq<u8>,
    leaf1: Seq<u8>,
    leaf2: Seq<u8>,
    leaf_index: nat,
    path: Seq<Seq<u8>>,
    k: nat,
)
    requires
        leaf1 != leaf2,
        spec_climb(param, leaf1, leaf_index, path, k) == spec_climb(
            param,
            leaf2,
            leaf_index,
            path,
            k,
        ),
    ensures
        spec_keccak_collision(),
    decreases k,
{
    if k > 0 {
        let below = (k - 1) as nat;
        let node1 = spec_climb(param, leaf1, leaf_index, path, below);
        let node2 = spec_climb(param, leaf2, leaf_index, path, below);
        let sibling = path[below as int];
        let index = spec_ancestor(leaf_index, below);
        if node1 == node2 {
            lemma_climb_collision(param, leaf1, leaf2, leaf_index, path, below);
        } else if index % 2 == 0 {
            lemma_tree_node_pair_collision(
                param,
                node1,
                sibling,
                node2,
                sibling,
                below as u32,
                (index / 2) as u32,
            );
        } else {
            lemma_tree_node_pair_collision(
                param,
                sibling,
                node1,
                sibling,
                node2,
                below as u32,
                (index / 2) as u32,
            );
        }
    }
}

/// A proof leads from two different leaves to the same root only where two
/// different byte strings have the same Keccak-256 digest.
pub proof fn lemma_second_leaf_collision(
    param: Seq<u8>,
    proof: HashTreeProofView,
    leaf1: Seq<u8>,
    leaf2: Seq<u8>,
    root: Seq<u8>,
)
    requires
        leaf1 != leaf2,
        spec_merkle_verify(param, proof, leaf1, root),
        spec_merkle_verify(param, proof, leaf2, root),
    ensures
        spec_keccak_collision(),
{
    lemma_climb_collision(param, leaf1, leaf2, proof.leaf_index, proof.path, proof.path.len());
}

proof fn lemma_climb_path_collision(
    param: Seq<u8>,
    leaf: Seq<u8>,
    leaf_index: nat,
    path1: Seq<Seq<u8>>,
    path2: Seq<Seq<u8>>,
    k: nat,
    j: int,
)
    requires
        k <= path1.len(),
        k <= path2.len(),
        forall|i: int| 0 <= i < k ==> (#[trigger] path1[i]).len() == path2[i].len(),
        0 <= j < k,
        path1[j] != path2[j],
        spec_climb(param, leaf, leaf_index, path1, k) == spec_climb(
            param,
            leaf,
            leaf_index,
            path2,
            k,
        ),
    ensures
        spec_keccak_collision(),
    decreases k,
{
    let below = (k - 1) as nat;
    let node1 = spec_climb(param, leaf, leaf_index, path1, below);
    let node2 = spec_climb(param, leaf, leaf_index, path2, below);
    let sibling1 = path1[below as int];
    let sibling2 = path2[below as int];
    let index = spec_ancestor(leaf_index, below);
    if node1 == node2 && sibling1 == sibling2 {
        lemma_climb_path_collision(param, leaf, leaf_index, path1, path2, below, j);
    } else {
        assert(sibling1.len() == sibling2.len());
        if index % 2 == 0 {
            lemma_tree_node_pair_collision(
                param,
                node1,
                sibling1,
                node2,
                sibling2,
                below as u32,
                (index / 2) as u32,
            );
        } else {
            lemma_tree_node_pair_collision(
                param,
                sibling1,
                node1,
                sibling2,
                node2,
                below as u32,
                (index / 2) as u32,
            );
        }
    }
}

/// Two proofs for one leaf and one index, with different paths of the same
/// length, of hashes of the same lengths, lead to the same root only where
/// two different byte strings have the same Keccak-256 digest.
pub proof fn lemma_second_path_collision(
    param: Seq<u8>,
    proof1: HashTreeProofView,
    proof2: HashTreeProofView,
    leaf: Seq<u8>,
    root: Seq<u8>,
)
    requires
        proof1.leaf_index == proof2.leaf_index,
        proof1.path.len() == proof2.path.len(),
        forall|i: int|
            0 <= i < proof1.path.len() ==> (#[trigger] proof1.path[i]).len()
                == proof2.path[i].len(),
        proof1.path != proof2.path,
        spec_merkle_verify(param, proof1, leaf, root),
        spec_merkle_verify(param, proof2, leaf, root),
    ensures
        spec_keccak_collision(),
{
    if forall|i: int| 0 <= i < proof1.path.len() ==> proof1.path[i] == proof2.path[i] {
        assert(proof1.path =~= proof2.path);
    }
    let j = choose|j: int| 0 <= j < proof1.path.len() && proof1.path[j] != proof2.path[j];
    lemma_climb_path_collision(
        param,
        leaf,
        proof1.leaf_index,
        proof1.path,
        proof2.path,
        proof1.path.len(),
        j,
    );
}

/// A proof leads from a leaf to at most one root.
pub proof fn lemma_root_unique(
    param: Seq<u8>,
    proof: HashTreeProofView,
    leaf: Seq<u8>,
    root1: Seq<u8>,
    root2: Seq<u8>,
)
    requires
        spec_merkle_verify(param, proof, leaf, root1),
        spec_merkle_verify(param, proof, leaf, root2),
    ensures
        root1 == root2,
{
}

/// A proof that a leaf belongs to the tree with a given root: the index of
/// the leaf and the siblings on the way up.
#[derive(Debug)]
pub struct HashTreeProof {
    leaf_index: usize,
    pub path: Vec<crate::hash::Hash>,
}

impl View for HashTreeProof {
    type V = HashTreeProofView;

    closed spec fn view(&self) -> HashTreeProofView {
        HashTreeProofView { leaf_index: self.leaf_index as nat, path: hash_views(self.path@) }
    }
}

impl Clone for HashTreeProof {
    fn clone(&self) -> (res: Self)
        ensures
            res@ == self@,
    {
        HashTreeProof {
            leaf_index: self.leaf_index,
            path: crate::hash::clone_hashes(&self.path),
        }
    }
}

impl HashTreeProof {
    /// The proof for the leaf at `leaf_index` with the given siblings.
    pub fn new(leaf_index: usize, path: Vec<crate::hash::Hash>) -> (proof: HashTreeProof)
        ensures
            proof@.leaf_index == leaf_index,
            proof@.path == hash_views(path@),
    {
        HashTreeProof { leaf_index, path }
    }

    /// The index of the leaf that the proof is for.
    pub fn leaf_index(&self) -> (index: usize)
        ensures
            index == self@.leaf_index,
    {
        self.leaf_index
    }

    /// Whether the proof leads from `leaf` to `root`: walks up the path,
    /// hashing the current node with each sibling in turn, and compares what
    /// it reaches with `root`.
    pub fn verify(
        &self,
        param: &Param,
        leaf: &crate::hash::Hash,
        root: &crate::hash::Hash,
    ) -> (ok: bool)
        ensures
            ok == spec_merkle_verify(param@, self@, leaf@, root@),
    {
        let mut current_hash = *leaf;
        let mut index = self.leaf_index;
        let mut level: usize = 0;
        while level < self.path.len()
            invariant
                level <= self.path@.len(),
                index == spec_ancestor(self.leaf_index as nat, level as nat),
                current_hash@ == spec_climb(
                    param@,
                    leaf@,
                    self.leaf_index as nat,
                    hash_views(self.path@),
                    level as nat,
                ),
            decreases self.path@.len() - level,
        {
            let sibling_hash = self.path[level];
            let parent_index = index / 2;
            let level_tweak = #[verifier::truncate] (level as u32);
            let index_tweak = #[verifier::truncate] (parent_index as u32);
            current_hash = if index % 2 == 0 {
                tweak_hash_tree_node(param, &current_hash, &sibling_hash, level_tweak, index_tweak)
            } else {
                tweak_hash_tree_node(param, &sibling_hash, &current_hash, level_tweak, index_tweak)
            };
            index = parent_index;
            level += 1;
        }
        current_hash == *root
    }
}

/// A Merkle tree with all its levels.
pub struct HashTree {
    /// The nodes of each level, from the leaves in `levels[0]` to the root
    /// alone in the last level, each level from left to right.
    pub levels: Vec<Vec<crate::hash::Hash>>,
    /// The root of the tree.
    pub root: crate::hash::Hash,
}

impl HashTree {
    /// The levels of the tree, as byte strings.
    pub open spec fn level_views(&self) -> Seq<Seq<Seq<u8>>> {
        Seq::new(self.levels@.len(), |k: int| hash_views(self.levels@[k]@))
    }

    /// The shape of a tree: each level has half the nodes of the level
    /// below, down to one node.
    pub open spec fn well_shaped(&self) -> bool {
        &&& self.levels@.len() >= 1
        &&& forall|k: int|
            0 <= k < self.levels@.len() ==> (#[trigger] self.levels@[k])@.len() == pow2(
                (self.levels@.len() - 1 - k) as nat,
            )
    }

    /// The number of leaves.
    pub open spec fn spec_num_leaves(&self) -> nat {
        self.levels@[0]@.len()
    }

    /// Builds the tree over `leaves`, level by level. The number of leaves
    /// is a power of two, and small enough for the index of a node to fit
    /// the 32 bits that frame it.
    pub fn new(param: &Param, leaves: Vec<crate::hash::Hash>) -> (tree: HashTree)
        requires
            spec_is_power_of_two(leaves@.len()),
            leaves@.len() <= u32::MAX,
        ensures
            tree.level_views() == spec_tree_levels(param@, hash_views(leaves@)),
            tree.root@ == spec_merkle_root(param@, hash_views(leaves@)),
            tree.levels@[0] == leaves,
            tree.well_shaped(),
    {
        let ghost leaf_views = hash_views(leaves@);
        let ghost height = spec_height(leaves@.len());
        let ghost leaves_copy = leaves;
        proof {
            lemma2_to64();
            if height > 32 {
                lemma_pow2_strictly_increases(32, height);
            }
        }
        let mut levels: Vec<Vec<crate::hash::Hash>> = Vec::new();
        levels.push(leaves);
        let mut level_idx: usize = 0;
        while levels[level_idx].len() > 1
            invariant
                height < 32,
                level_idx <= height,
                levels@.len() == level_idx + 1,
                levels@[0] == leaves_copy,
                leaf_views == hash_views(leaves_copy@),
                forall|k: int|
                    0 <= k <= level_idx ==> hash_views((#[trigger] levels@[k])@) == spec_level(
                        param@,
                        leaf_views,
                        k as nat,
                    ),
                forall|k: int|
                    0 <= k <= level_idx ==> (#[trigger] levels@[k])@.len() == pow2(
                        (height - k) as nat,
                    ),
            decreases height - level_idx,
        {
            proof {
                lemma2_to64();
                if level_idx == height {
                    assert(levels@[level_idx as int]@.len() == pow2(0));
                }
                lemma_pow2_unfold((height - level_idx) as nat);
                lemma_pow2_strictly_increases((height - level_idx) as nat, 32);
            }
            let num_parents = levels[level_idx].len() / 2;
            let level_tweak = level_idx as u32;
            let ghost children = hash_views(levels@[level_idx as int]@);
            let mut parents: Vec<crate::hash::Hash> = Vec::new();
            let mut i: usize = 0;
            while i < num_parents
                invariant
                    i <= num_parents,
                    level_idx < levels@.len(),
                    2 * num_parents <= levels@[level_idx as int]@.len(),
                    2 * num_parents <= usize::MAX,
                    num_parents <= u32::MAX,
                    level_tweak == level_idx,
                    children == hash_views(levels@[level_idx as int]@),
                    parents@.len() == i,
                    forall|j: int|
                        0 <= j < i ==> (#[trigger] parents@[j])@ == spec_tweak_hash_tree_node(
                            param@,
                            children[2 * j],
                            children[2 * j + 1],
                            level_tweak,
                            j as u32,
                        ),
                decreases num_parents - i,
            {
                let node = tweak_hash_tree_node(
                    param,
                    &levels[level_idx][2 * i],
                    &levels[level_idx][2 * i + 1],
                    level_tweak,
                    i as u32,
                );
                parents.push(node);
                i += 1;
            }
            proof {
                assert(hash_views(parents@) =~= spec_parent_level(
                    param@,
                    children,
                    level_idx as nat,
                ));
                assert(spec_level(param@, leaf_views, (level_idx + 1) as nat) == spec_parent_level(
                    param@,
                    spec_level(param@, leaf_views, level_idx as nat),
                    level_idx as nat,
                ));
            }
            levels.push(parents);
            level_idx += 1;
        }
        proof {
            lemma2_to64();
            if level_idx < height {
                lemma_pow2_strictly_increases(0, (height - level_idx) as nat);
            }
            lemma_pow2_pos((height - level_idx) as nat);
            assert(level_idx == height);
        }
        let root = levels[level_idx][0];
        let tree = HashTree { levels, root };
        proof {
            assert(tree.level_views() =~= spec_tree_levels(param@, leaf_views));
            assert(hash_views(tree.levels@[height as int]@)[0] == root@);
        }
        tree
    }

    /// The proof for the leaf at `leaf_index`: its sibling, then the sibling
    /// of its parent, and so on up to the level below the root.
    pub fn get_proof(&self, leaf_index: usize) -> (proof: HashTreeProof)
        requires
            self.well_shaped(),
            leaf_index < self.spec_num_leaves(),
        ensures
            proof@.leaf_index == leaf_index,
            proof@.path == spec_path(self.level_views(), leaf_index as nat),
    {
        let mut path: Vec<crate::hash::Hash> = Vec::new();
        let mut index = leaf_index;
        let mut level: usize = 0;
        let height = self.levels.len() - 1;
        while level < height
            invariant
                self.well_shaped(),
                height == self.levels@.len() - 1,
                level <= height,
                index == spec_ancestor(leaf_index as nat, level as nat),
                index < pow2((height - level) as nat),
                path@.len() == level,
                forall|k: int|
                    0 <= k < level ==> (#[trigger] path@[k])@ == self.level_views()[k][spec_sibling(
                        spec_ancestor(leaf_index as nat, k as nat),
                    ) as int],
            decreases height - level,
        {
            proof {
                lemma_pow2_unfold((height - level) as nat);
            }
            let sibling_index = if index % 2 == 0 {
                index + 1
            } else {
                index - 1
            };
            assert(self.levels@[level as int]@.len() == pow2((height - level) as nat));
            path.push(self.levels[level][sibling_index]);
            index = index / 2;
            level += 1;
        }
        let proof = HashTreeProof { leaf_index, path };
        assert(proof@.path =~= spec_path(self.level_views(), leaf_index as nat));
        proof
    }
}

} // verus!
