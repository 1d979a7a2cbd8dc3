//! The parameters of one instantiation of the scheme.

use vstd::prelude::*;
use vstd::arithmetic::power2::pow2;

verus! {

/// The output width of the underlying hash, in bytes.
pub const HASH_LEN: usize = 32;

/// Parameters of an instantiation of the signature scheme.
#[derive(Debug)]
pub struct Spec {
    /// How many leading bytes of the message hash become coordinates.
    pub message_hash_len: usize,
    /// The number of bits per coordinate of a codeword.
    pub coordinate_resolution_bits: usize,
    /// The length in bytes of the per-signer domain parameter.
    pub param_len: usize,
    /// The sum that the coordinates of an accepted codeword must have.
    pub target_sum: usize,
}

impl Spec {
    /// The parameters that the scheme can run on: the resolution divides a
    /// byte, and the retained message hash is no longer than a hash.
    pub open spec fn wf(&self) -> bool {
        &&& (self.coordinate_resolution_bits == 1 || self.coordinate_resolution_bits == 2
            || self.coordinate_resolution_bits == 4 || self.coordinate_resolution_bits == 8)
        &&& self.message_hash_len <= HASH_LEN
    }

    /// Whether the scheme can run on these parameters.
    pub fn is_wf(&self) -> (res: bool)
        ensures
            res == self.wf(),
    {
        let w = self.coordinate_resolution_bits;
        (w == 1 || w == 2 || w == 4 || w == 8) && self.message_hash_len <= HASH_LEN
    }

    /// The number of coordinates of a codeword, which is the number of chains.
    pub open spec fn spec_dimension(&self) -> nat {
        (self.message_hash_len * 8 / (self.coordinate_resolution_bits as int)) as nat
    }

    /// The number of positions of a chain, `2^w`.
    pub open spec fn spec_chain_len(&self) -> nat {
        pow2(self.coordinate_resolution_bits as nat)
    }

    /// The dimension of the hypercube, which is the number of chains.
    pub fn dimension(&self) -> (d: usize)
        requires
            self.coordinate_resolution_bits != 0,
            self.message_hash_len * 8 <= usize::MAX,
        ensures
            d == self.spec_dimension(),
    {
        self.message_hash_len * 8 / self.coordinate_resolution_bits
    }

    /// The number of chains, which is the dimension.
    pub fn num_chains(&self) -> (d: usize)
        requires
            self.coordinate_resolution_bits != 0,
            self.message_hash_len * 8 <= usize::MAX,
        ensures
            d == self.spec_dimension(),
    {
        self.dimension()
    }

    /// The length of a chain, `2^w` for coordinates of `w` bits.
    pub fn chain_len(&self) -> (len: usize)
        requires
            self.coordinate_resolution_bits < usize::BITS,
        ensures
            len == self.spec_chain_len(),
            len >= 1,
    {
        proof {
            vstd::bits::lemma_usize_pow2_no_overflow(self.coordinate_resolution_bits as nat);
            vstd::bits::lemma_usize_shl_is_mul(1usize, self.coordinate_resolution_bits);
        }
        1usize << self.coordinate_resolution_bits
    }

    /// A well-formed instantiation has at most 256 chains, of length 2, 4,
    /// 16 or 256.
    pub proof fn lemma_wf_bounds(&self)
        requires
            self.wf(),
        ensures
            self.spec_dimension() <= 256,
            self.spec_dimension() * self.coordinate_resolution_bits == 8 * self.message_hash_len,
            2 <= self.spec_chain_len() <= 256,
            self.coordinate_resolution_bits == 1 ==> self.spec_chain_len() == 2,
            self.coordinate_resolution_bits == 2 ==> self.spec_chain_len() == 4,
            self.coordinate_resolution_bits == 4 ==> self.spec_chain_len() == 16,
            self.coordinate_resolution_bits == 8 ==> self.spec_chain_len() == 256,
    {
        vstd::arithmetic::power2::lemma2_to64();
        let w = self.coordinate_resolution_bits;
        let n = self.message_hash_len;
        if w == 1 {
            assert(n * 8 / 1 * 1 == 8 * n);
        } else if w == 2 {
            assert(n * 8 / 2 * 2 == 8 * n);
        } else if w == 4 {
            assert(n * 8 / 4 * 4 == 8 * n);
        } else {
            assert(n * 8 / 8 * 8 == 8 * n);
        }
    }
}

impl Default for Spec {
    /// The instantiation with 4-bit coordinates.
    fn default() -> (s: Spec)
        ensures
            s.message_hash_len == 18,
            s.coordinate_resolution_bits == 4,
            s.param_len == 18,
            s.target_sum == 297,
            s.wf(),
    {
        spec_2()
    }
}

impl Clone for Spec {
    fn clone(&self) -> (res: Self)
        ensures
            res == *self,
    {
        Spec {
            message_hash_len: self.message_hash_len,
            coordinate_resolution_bits: self.coordinate_resolution_bits,
            param_len: self.param_len,
            target_sum: self.target_sum,
        }
    }
}

/// The instantiation with 2-bit coordinates: 72 chains of length 4, with
/// coordinate sums between 0 and 216.
pub fn spec_1() -> (s: Spec)
    ensures
        s.message_hash_len == 18,
        s.coordinate_resolution_bits == 2,
        s.param_len == 18,
        s.target_sum == 119,
        s.wf(),
{
    Spec { message_hash_len: 18, coordinate_resolution_bits: 2, param_len: 18, target_sum: 119 }
}

/// The instantiation with 4-bit coordinates: 36 chains of length 16, with
/// coordinate sums between 0 and 540.
pub fn spec_2() -> (s: Spec)
    ensures
        s.message_hash_len == 18,
        s.coordinate_resolution_bits == 4,
        s.param_len == 18,
        s.target_sum == 297,
        s.wf(),
{
    Spec { message_hash_len: 18, coordinate_resolution_bits: 4, param_len: 18, target_sum: 297 }
}

} // verus!
