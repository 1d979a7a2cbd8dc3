//! The hash value and the four tweaked hash functions: each frames its inputs
//! with the signer's parameter and a tweak byte of its own and hashes the
//! result with Keccak-256.

use crate::encoding::{be_bytes_u32, be_bytes_u64, spec_be_bytes_u32, spec_be_bytes_u64};
use crate::keccak::{keccak256, keccak_finalize, keccak_update, keccak_v256, absorbed};
use crate::keys::Pk;
use crate::rng::random_bytes;
use crate::types::{Message, Nonce, Param};
use rand::rngs::StdRng;
use vstd::prelude::*;

verus! {

/// The tweak byte of a chain step.
pub const TWEAK_CHAIN: u8 = 0x00;

/// The tweak byte of a tree node and of a public-key leaf.
pub const TWEAK_TREE: u8 = 0x01;

/// The tweak byte of a message hash.
pub const TWEAK_MESSAGE: u8 = 0x02;

/// A hash value: 32 bytes.
#[derive(Debug, Clone, Copy, Eq, Hash)]
pub struct Hash(pub [u8; 32]);

impl View for Hash {
    type V = Seq<u8>;

    open spec fn view(&self) -> Seq<u8> {
        self.0@
    }
}

impl Hash {
    /// Draws a hash from the generator: the next 32 bytes of it.
    pub fn random(rng: &mut StdRng) -> (hash: Hash) {
        let bytes = random_bytes(rng, 32);
        Hash::from_bytes(bytes.as_slice())
    }

    /// The hash with the given 32 bytes, in their order.
    pub fn from_bytes(bytes: &[u8]) -> (hash: Hash)
        requires
            bytes@.len() == 32,
        ensures
            hash@ == bytes@,
    {
        let mut hash = Hash([0u8; 32]);
        let mut i: usize = 0;
        while i < 32
            invariant
                i <= 32,
                bytes@.len() == 32,
                forall|j: int| 0 <= j < i ==> hash.0@[j] == bytes@[j],
            decreases 32 - i,
        {
            hash.0[i] = bytes[i];
            i += 1;
        }
        assert(hash@ =~= bytes@);
        hash
    }

    /// The bytes of the hash.
    pub fn as_ref(&self) -> (bytes: &[u8])
        ensures
            bytes@ == self@,
    {
        &self.0
    }
}

impl PartialEq for Hash {
    fn eq(&self, other: &Self) -> (res: bool) {
        let mut i: usize = 0;
        while i < 32
            invariant
                i <= 32,
                forall|j: int| 0 <= j < i ==> self.0@[j] == other.0@[j],
            decreases 32 - i,
        {
            if self.0[i] != other.0[i] {
                return false;
            }
            i += 1;
        }
        assert(self@ =~= other@);
        true
    }
}

impl vstd::std_specs::cmp::PartialEqSpecImpl for Hash {
    open spec fn obeys_eq_spec() -> bool {
        true
    }

    open spec fn eq_spec(&self, other: &Self) -> bool {
        self@ == other@
    }
}

/// The views of a sequence of hashes.
pub open spec fn hash_views(hashes: Seq<Hash>) -> Seq<Seq<u8>> {
    Seq::new(hashes.len(), |i: int| hashes[i]@)
}

/// A copy of a vector of hashes.
pub fn clone_hashes(hashes: &Vec<Hash>) -> (res: Vec<Hash>)
    ensures
        res@ == hashes@,
{
    let mut res: Vec<Hash> = Vec::new();
    let mut i: usize = 0;
    while i < hashes.len()
        invariant
            i <= hashes@.len(),
            res@ == hashes@.take(i as int),
        decreases hashes@.len() - i,
    {
        res.push(hashes[i]);
        assert(res@ =~= hashes@.take(i + 1));
        i += 1;
    }
    assert(hashes@.take(i as int) =~= hashes@);
    res
}

/// The message hash: `H(param || 0x02 || nonce || message)`.
pub open spec fn spec_tweak_hash_message(param: Seq<u8>, message: Seq<u8>, nonce: Seq<u8>) -> Seq<
    u8,
> {
    keccak256(param + seq![TWEAK_MESSAGE] + nonce + message)
}

/// One step of a chain:
/// `H(param || 0x00 || prev || be_u64(chain_index) || be_u64(pos_in_chain))`,
/// where `pos_in_chain` is the position of the hash that comes out.
pub open spec fn spec_tweak_hash_chain(
    param: Seq<u8>,
    chain_index: nat,
    pos_in_chain: nat,
    prev: Seq<u8>,
) -> Seq<u8> {
    keccak256(
        param + seq![TWEAK_CHAIN] + prev + spec_be_bytes_u64(chain_index as u64)
            + spec_be_bytes_u64(pos_in_chain as u64),
    )
}

/// A tree node from its two children:
/// `H(param || 0x01 || be_u32(level) || be_u32(index) || left || right)`.
pub open spec fn spec_tweak_hash_tree_node(
    param: Seq<u8>,
    left: Seq<u8>,
    right: Seq<u8>,
    level: u32,
    index: u32,
) -> Seq<u8> {
    keccak256(
        param + seq![TWEAK_TREE] + spec_be_bytes_u32(level) + spec_be_bytes_u32(index) + left
            + right,
    )
}

/// The leaf of a public key: `H(param || 0x01 || end_hashes[0] || ...)`,
/// the end hashes in order.
pub open spec fn spec_tweak_public_key_hash(param: Seq<u8>, end_hashes: Seq<Seq<u8>>) -> Seq<u8> {
    keccak256(param + seq![TWEAK_TREE] + end_hashes.flatten())
}

/// Whether two different byte strings have the same Keccak-256 digest.
pub open spec fn spec_keccak_collision() -> bool {
    exists|x: Seq<u8>, y: Seq<u8>| x != y && #[trigger] keccak256(x) == #[trigger] keccak256(y)
}

/// Byte strings that differ stay different between the same two byte
/// strings.
proof fn lemma_framing_keeps_difference(before: Seq<u8>, x: Seq<u8>, y: Seq<u8>, after: Seq<u8>)
    requires
        x != y,
    ensures
        before + x + after != before + y + after,
{
    let fx = before + x + after;
    let fy = before + y + after;
    if fx == fy {
        assert(fx.len() == before.len() + x.len() + after.len());
        assert(fy.len() == before.len() + y.len() + after.len());
        assert forall|i: int| 0 <= i < x.len() implies x[i] == y[i] by {
            assert(fx[before.len() + i] == x[i]);
            assert(fy[before.len() + i] == y[i]);
        }
        assert(x =~= y);
    }
}

/// Two tree nodes of different pairs of children that are the same hash
/// show a collision: the level and the index being the same, and the left
/// children or the right children being of one length.
pub proof fn lemma_tree_node_pair_collision(
    param: Seq<u8>,
    left1: Seq<u8>,
    right1: Seq<u8>,
    left2: Seq<u8>,
    right2: Seq<u8>,
    level: u32,
    index: u32,
)
    requires
        left1 != left2 || right1 != right2,
        left1.len() == left2.len() || right1.len() == right2.len(),
        spec_tweak_hash_tree_node(param, left1, right1, level, index) == spec_tweak_hash_tree_node(
            param,
            left2,
            right2,
            level,
            index,
        ),
    ensures
        spec_keccak_collision(),
{
    let prefix = param + seq![TWEAK_TREE] + spec_be_bytes_u32(level) + spec_be_bytes_u32(index);
    let input1 = prefix + left1 + right1;
    let input2 = prefix + left2 + right2;
    if input1 == input2 {
        assert(input1.len() == prefix.len() + left1.len() + right1.len());
        assert(input2.len() == prefix.len() + left2.len() + right2.len());
        assert forall|i: int| 0 <= i < left1.len() implies left1[i] == left2[i] by {
            assert(input1[prefix.len() + i] == left1[i]);
            assert(input2[prefix.len() + i] == left2[i]);
        }
        assert(left1 =~= left2);
        assert forall|i: int| 0 <= i < right1.len() implies right1[i] == right2[i] by {
            assert(input1[prefix.len() + left1.len() + i] == right1[i]);
            assert(input2[prefix.len() + left2.len() + i] == right2[i]);
        }
        assert(right1 =~= right2);
    }
    assert(input1 != input2 && keccak256(input1) == keccak256(input2));
}

/// Two chain steps from different hashes that give the same hash show a
/// collision: the chain and the position being the same.
pub proof fn lemma_chain_step_collision(
    param: Seq<u8>,
    chain_index: nat,
    pos_in_chain: nat,
    prev1: Seq<u8>,
    prev2: Seq<u8>,
)
    requires
        prev1 != prev2,
    ensures
        spec_tweak_hash_chain(param, chain_index, pos_in_chain, prev1) == spec_tweak_hash_chain(
            param,
            chain_index,
            pos_in_chain,
            prev2,
        ) ==> spec_keccak_collision(),
{
    let prefix = param + seq![TWEAK_CHAIN];
    let chain_bytes = spec_be_bytes_u64(chain_index as u64);
    let pos_bytes = spec_be_bytes_u64(pos_in_chain as u64);
    let input1 = prefix + prev1 + chain_bytes + pos_bytes;
    let input2 = prefix + prev2 + chain_bytes + pos_bytes;
    lemma_framing_keeps_difference(prefix, prev1, prev2, chain_bytes + pos_bytes);
    assert(input1 =~= prefix + prev1 + (chain_bytes + pos_bytes));
    assert(input2 =~= prefix + prev2 + (chain_bytes + pos_bytes));
    if keccak256(input1) == keccak256(input2) {
        assert(input1 != input2 && keccak256(input1) == keccak256(input2));
    }
}

/// Hashes a message with a nonce under a signer's parameter.
pub fn tweak_hash_message(param: &Param, message: &Message, nonce: &Nonce) -> (hash: Hash)
    ensures
        hash@ == spec_tweak_hash_message(param@, message@, nonce@),
{
    let mut hasher = keccak_v256();
    keccak_update(&mut hasher, param.as_ref());
    let tweak = [TWEAK_MESSAGE];
    keccak_update(&mut hasher, &tweak);
    keccak_update(&mut hasher, nonce.as_ref());
    keccak_update(&mut hasher, message.as_ref());
    assert(absorbed(hasher) =~= param@ + seq![TWEAK_MESSAGE] + nonce@ + message@);
    Hash(keccak_finalize(hasher))
}

/// The hash at position `pos_in_chain` of chain `chain_index`, from the hash
/// before it.
pub fn tweak_hash_chain(
    param: &Param,
    chain_index: usize,
    pos_in_chain: usize,
    hash: Hash,
) -> (next: Hash)
    ensures
        next@ == spec_tweak_hash_chain(param@, chain_index as nat, pos_in_chain as nat, hash@),
{
    let mut hasher = keccak_v256();
    keccak_update(&mut hasher, param.as_ref());
    let tweak = [TWEAK_CHAIN];
    keccak_update(&mut hasher, &tweak);
    keccak_update(&mut hasher, hash.as_ref());
    let chain_bytes = be_bytes_u64(chain_index as u64);
    keccak_update(&mut hasher, &chain_bytes);
    let pos_bytes = be_bytes_u64(pos_in_chain as u64);
    keccak_update(&mut hasher, &pos_bytes);
    assert(absorbed(hasher) =~= param@ + seq![TWEAK_CHAIN] + hash@ + spec_be_bytes_u64(
        chain_index as u64,
    ) + spec_be_bytes_u64(pos_in_chain as u64));
    Hash(keccak_finalize(hasher))
}

/// The hash of the tree node at `index` of the level above `level`, from its
/// two children at `level`.
pub fn tweak_hash_tree_node(
    param: &Param,
    left: &Hash,
    right: &Hash,
    level: u32,
    index: u32,
) -> (node: Hash)
    ensures
        node@ == spec_tweak_hash_tree_node(param@, left@, right@, level, index),
{
    let mut hasher = keccak_v256();
    keccak_update(&mut hasher, param.as_ref());
    let tweak = [TWEAK_TREE];
    keccak_update(&mut hasher, &tweak);
    let level_bytes = be_bytes_u32(level);
    keccak_update(&mut hasher, &level_bytes);
    let index_bytes = be_bytes_u32(index);
    keccak_update(&mut hasher, &index_bytes);
    keccak_update(&mut hasher, left.as_ref());
    keccak_update(&mut hasher, right.as_ref());
    assert(absorbed(hasher) =~= param@ + seq![TWEAK_TREE] + spec_be_bytes_u32(level)
        + spec_be_bytes_u32(index) + left@ + right@);
    Hash(keccak_finalize(hasher))
}

/// The hash that stands for a public key among the leaves of the tree.
pub fn tweak_public_key_hash(param: &Param, public_key: &Pk) -> (leaf: Hash)
    ensures
        leaf@ == spec_tweak_public_key_hash(param@, hash_views(public_key.end_hashes@)),
{
    let mut hasher = keccak_v256();
    keccak_update(&mut hasher, param.as_ref());
    let tweak = [TWEAK_TREE];
    keccak_update(&mut hasher, &tweak);
    let ghost views = hash_views(public_key.end_hashes@);
    let mut i: usize = 0;
    assert(views.take(0) =~= Seq::<Seq<u8>>::empty());
    while i < public_key.end_hashes.len()
        invariant
            i <= public_key.end_hashes.len(),
            views == hash_views(public_key.end_hashes@),
            absorbed(hasher) == param@ + seq![TWEAK_TREE] + views.take(i as int).flatten(),
        decreases public_key.end_hashes.len() - i,
    {
        keccak_update(&mut hasher, public_key.end_hashes[i].as_ref());
        proof {
            assert(views.take(i + 1) =~= views.take(i as int).push(views[i as int]));
            views.take(i as int).lemma_flatten_push(views[i as int]);
            assert(absorbed(hasher) =~= param@ + seq![TWEAK_TREE] + views.take(i + 1).flatten());
        }
        i += 1;
    }
    assert(views.take(i as int) =~= views);
    Hash(keccak_finalize(hasher))
}

} // verus!
