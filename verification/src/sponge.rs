//! Keccak-256 as a sponge over the Keccak permutation.
//!
//! This hasher keeps what it is given and does all the work when it is
//! finalized: it pads the input to a whole number of blocks, absorbs the
//! blocks one by one, with a permutation of the state after each, and reads
//! the digest off the state. Where a machine offers the permutation as one
//! instruction, nothing else has to change.

use crate::keccak::{keccak_f1600, keccak_permute};
use vstd::bytes::{
    spec_u64_from_le_bytes,
    spec_u64_to_le_bytes,
    u64_from_le_bytes,
    u64_to_le_bytes,
};
use vstd::prelude::*;
use vstd::slice::slice_subrange;

verus! {

/// The number of bytes of a block: the rate of Keccak-256.
pub const RATE: usize = 136;

/// The number of lanes of a block.
pub const RATE_LANES: usize = 17;

/// The input with its padding: a byte `0x01`, zero bytes up to the last
/// byte of a block, and a byte `0x80`; the one byte `0x81` where the first
/// is already the last byte of a block.
pub open spec fn spec_pad(input: Seq<u8>) -> Seq<u8> {
    let used = input.len() % (RATE as nat);
    if used == RATE - 1 {
        input.push(0x81u8)
    } else {
        input.push(0x01u8) + Seq::new((RATE - 2 - used) as nat, |i: int| 0u8) + seq![0x80u8]
    }
}

/// Lane `lane` of a block: eight bytes, the least significant first.
pub open spec fn spec_lane(block: Seq<u8>, lane: int) -> u64 {
    spec_u64_from_le_bytes(block.subrange(8 * lane, 8 * lane + 8))
}

/// The state with a block mixed in: each lane of the block is combined with
/// the same lane of the state by exclusive or; the lanes beyond the block
/// stay.
pub open spec fn spec_mix(state: Seq<u64>, block: Seq<u8>) -> Seq<u64> {
    Seq::new(
        25,
        |lane: int|
            if lane < RATE_LANES {
                state[lane] ^ spec_lane(block, lane)
            } else {
                state[lane]
            },
    )
}

/// The state after the first `blocks` blocks of `padded` were absorbed,
/// from a state of zeros.
pub open spec fn spec_absorb(padded: Seq<u8>, blocks: nat) -> Seq<u64>
    decreases blocks,
{
    if blocks == 0 {
        Seq::new(25, |lane: int| 0u64)
    } else {
        keccak_f1600(
            spec_mix(
                spec_absorb(padded, (blocks - 1) as nat),
                padded.subrange((blocks - 1) * RATE, blocks * RATE),
            ),
        )
    }
}

/// The digest that a state gives: its first four lanes, each as eight
/// bytes, the least significant first.
pub open spec fn spec_squeeze(state: Seq<u64>) -> Seq<u8> {
    spec_u64_to_le_bytes(state[0]) + spec_u64_to_le_bytes(state[1]) + spec_u64_to_le_bytes(
        state[2],
    ) + spec_u64_to_le_bytes(state[3])
}

/// The digest of an input.
pub open spec fn spec_keccak256_sponge(input: Seq<u8>) -> Seq<u8> {
    let padded = spec_pad(input);
    spec_squeeze(spec_absorb(padded, padded.len() / (RATE as nat)))
}

/// The padded input is a whole number of blocks, at least one, and no more
/// than a block longer than the input.
pub proof fn lemma_pad_len(input: Seq<u8>)
    ensures
        spec_pad(input).len() % (RATE as nat) == 0,
        input.len() < spec_pad(input).len() <= input.len() + RATE,
{
}

/// A Keccak-256 hasher.
pub struct Keccak256 {
    buf: Vec<u8>,
}

impl View for Keccak256 {
    type V = Seq<u8>;

    closed spec fn view(&self) -> Seq<u8> {
        self.buf@
    }
}

impl Keccak256 {
    /// A hasher that was given nothing yet.
    pub fn new() -> (hasher: Keccak256)
        ensures
            hasher@ == Seq::<u8>::empty(),
    {
        Keccak256 { buf: Vec::new() }
    }

    /// Gives the hasher more input, which comes after what it was given
    /// before.
    pub fn update(&mut self, data: &[u8])
        ensures
            final(self)@ == old(self)@ + data@,
    {
        self.buf.extend_from_slice(data);
    }

    /// The digest of all that the hasher was given.
    pub fn finalize(self) -> (digest: [u8; 32])
        requires
            self@.len() + RATE <= usize::MAX,
        ensures
            digest@ == spec_keccak256_sponge(self@),
    {
        let ghost input = self@;
        let mut buf = self.buf;
        let used = buf.len() % RATE;
        if used == RATE - 1 {
            buf.push(0x81);
        } else {
            buf.push(0x01);
            let mut filled = used + 1;
            while filled < RATE - 1
                invariant
                    used + 1 <= filled <= RATE - 1,
                    input.len() + RATE <= usize::MAX,
                    buf@ == input.push(0x01u8) + Seq::new(
                        (filled - used - 1) as nat,
                        |i: int| 0u8,
                    ),
                decreases RATE - filled,
            {
                buf.push(0x00);
                filled += 1;
                assert(buf@ =~= input.push(0x01u8) + Seq::new(
                    (filled - used - 1) as nat,
                    |i: int| 0u8,
                ));
            }
            buf.push(0x80);
        }
        assert(buf@ =~= spec_pad(input));
        proof {
            lemma_pad_len(input);
        }
        let blocks = buf.len() / RATE;
        let mut state = [0u64;25];
        assert(state@ =~= spec_absorb(buf@, 0));
        let mut block: usize = 0;
        while block < blocks
            invariant
                block <= blocks,
                blocks * RATE == buf@.len(),
                buf@.len() <= usize::MAX,
                state@ == spec_absorb(buf@, block as nat),
            decreases blocks - block,
        {
            let ghost before = state@;
            let ghost bytes = buf@.subrange(block * RATE, (block + 1) * RATE);
            let offset = block * RATE;
            let mut lane: usize = 0;
            while lane < RATE_LANES
                invariant
                    lane <= RATE_LANES,
                    block < blocks,
                    blocks * RATE == buf@.len(),
                    buf@.len() <= usize::MAX,
                    before.len() == 25,
                    offset == block * RATE,
                    bytes == buf@.subrange(block * RATE, (block + 1) * RATE),
                    forall|l: int| 0 <= l < lane ==> state@[l] == before[l] ^ spec_lane(bytes, l),
                    forall|l: int| lane <= l < 25 ==> state@[l] == before[l],
                decreases RATE_LANES - lane,
            {
                let from = offset + 8 * lane;
                let word = u64_from_le_bytes(slice_subrange(buf.as_slice(), from, from + 8));
                assert(buf@.subrange(from as int, from + 8) =~= bytes.subrange(
                    8 * lane,
                    8 * lane + 8,
                ));
                state[lane] = state[lane] ^ word;
                lane += 1;
            }
            assert(state@ =~= spec_mix(before, bytes));
            keccak_permute(&mut state);
            block += 1;
        }
        let mut digest = [0u8;32];
        let ghost squeezed = spec_squeeze(state@);
        let mut lane: usize = 0;
        proof {
            vstd::bytes::lemma_auto_spec_u64_to_from_le_bytes();
        }
        while lane < 4
            invariant
                lane <= 4,
                squeezed == spec_squeeze(state@),
                squeezed.len() == 32,
                forall|j: int| 0 <= j < 8 * lane ==> digest@[j] == squeezed[j],
            decreases 4 - lane,
        {
            let bytes = u64_to_le_bytes(state[lane]);
            let mut k: usize = 0;
            while k < 8
                invariant
                    k <= 8,
                    lane < 4,
                    bytes@.len() == 8,
                    bytes@ == spec_u64_to_le_bytes(state@[lane as int]),
                    squeezed == spec_squeeze(state@),
                    squeezed.len() == 32,
                    forall|j: int| 0 <= j < 8 * lane + k ==> digest@[j] == squeezed[j],
                decreases 8 - k,
            {
                digest[8 * lane + k] = bytes[k];
                proof {
                    vstd::bytes::lemma_auto_spec_u64_to_from_le_bytes();
                    assert(squeezed[8 * lane + k] == bytes@[k as int]);
                }
                k += 1;
            }
            lane += 1;
        }
        assert(digest@ =~= squeezed);
        digest
    }
}

/// A Keccak-256 hasher that was given nothing yet.
pub fn v256() -> (hasher: Keccak256)
    ensures
        hasher@ == Seq::<u8>::empty(),
{
    Keccak256::new()
}

} // verus!
