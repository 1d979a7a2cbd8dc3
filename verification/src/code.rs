//! Codewords: the coordinates that a hashed message stands for.
//!
//! The retained bytes of the message hash are cut into coordinates of `w`
//! bits each, the low bits of a byte first. A codeword is valid when its
//! coordinates have the sum that the instantiation asks for.

use crate::hash::{spec_tweak_hash_message, tweak_hash_message};
use crate::spec::Spec;
use crate::types::{Message, Nonce, Param};
use rand::rngs::StdRng;
use vstd::arithmetic::power2::{lemma2_to64, pow2};
use vstd::prelude::*;
use vstd::slice::slice_subrange;

verus! {

/// The resolutions that a byte can be cut by.
pub open spec fn valid_resolution(w: nat) -> bool {
    w == 1 || w == 2 || w == 4 || w == 8
}

/// How many coordinates of `w` bits a byte holds.
pub open spec fn spec_coordinates_per_byte(w: nat) -> nat {
    8nat / w
}

/// Digit `k` of `x` in base `2^w`, counting from the least significant.
pub open spec fn spec_digit(x: nat, w: nat, k: int) -> nat {
    (x / pow2((w * k) as nat)) % pow2(w)
}

/// Coordinate `i` of a byte string: with `8 / w` coordinates to a byte, it
/// is digit `i % (8 / w)` of byte `i / (8 / w)` in base `2^w`, the least
/// significant digit first.
pub open spec fn spec_coordinate(bytes: Seq<u8>, w: nat, i: int) -> u8 {
    let per = spec_coordinates_per_byte(w) as int;
    spec_digit(bytes[i / per] as nat, w, i % per) as u8
}

/// The coordinates of a byte string at `w` bits each.
pub open spec fn spec_bytes_to_coordinates(bytes: Seq<u8>, w: nat) -> Seq<u8> {
    Seq::new(bytes.len() * 8 / w, |i: int| spec_coordinate(bytes, w, i))
}

/// The number that a sequence of digits in base `2^w` stands for, the least
/// significant digit first.
pub open spec fn spec_digits_value(digits: Seq<u8>, w: nat) -> nat
    decreases digits.len(),
{
    if digits.len() == 0 {
        0
    } else {
        digits[0] as nat + pow2(w) * spec_digits_value(digits.drop_first(), w)
    }
}

/// Byte `j` of the byte string that a sequence of coordinates stands for:
/// the `8 / w` coordinates from `j * (8 / w)` on are its digits.
pub open spec fn spec_packed_byte(coords: Seq<u8>, w: nat, j: int) -> nat {
    let per = spec_coordinates_per_byte(w) as int;
    spec_digits_value(coords.subrange(j * per, (j + 1) * per), w)
}

/// The byte string that a sequence of coordinates stands for.
pub open spec fn spec_coordinates_to_bytes(coords: Seq<u8>, w: nat) -> Seq<u8> {
    Seq::new(coords.len() * w / 8, |j: int| spec_packed_byte(coords, w, j) as u8)
}

/// The first `n` bytes of a byte string.
pub open spec fn spec_prefix(bytes: Seq<u8>, n: nat) -> Seq<u8> {
    Seq::new(n, |i: int| bytes[i])
}

/// The sum of the coordinates.
pub open spec fn spec_sum(coords: Seq<u8>) -> nat
    decreases coords.len(),
{
    if coords.len() == 0 {
        0
    } else {
        spec_sum(coords.drop_last()) + coords.last() as nat
    }
}

/// The coordinates that a message and a nonce stand for under a signer's
/// parameter: those of the first `message_hash_len` bytes of the message
/// hash.
pub open spec fn spec_codeword(spec: Spec, param: Seq<u8>, message: Seq<u8>, nonce: Seq<u8>) -> Seq<
    u8,
> {
    spec_bytes_to_coordinates(
        spec_prefix(spec_tweak_hash_message(param, message, nonce), spec.message_hash_len as nat),
        spec.coordinate_resolution_bits as nat,
    )
}

/// Whether the codeword of a message and a nonce has the target sum.
pub open spec fn spec_codeword_valid(
    spec: Spec,
    param: Seq<u8>,
    message: Seq<u8>,
    nonce: Seq<u8>,
) -> bool {
    spec_sum(spec_codeword(spec, param, message, nonce)) == spec.target_sum
}

/// The coordinates to a byte, resolution by resolution.
pub proof fn lemma_coordinates_per_byte(w: nat)
    requires
        valid_resolution(w),
    ensures
        spec_coordinates_per_byte(w) * w == 8,
        w == 1 ==> spec_coordinates_per_byte(w) == 8 && pow2(w) == 2,
        w == 2 ==> spec_coordinates_per_byte(w) == 4 && pow2(w) == 4,
        w == 4 ==> spec_coordinates_per_byte(w) == 2 && pow2(w) == 16,
        w == 8 ==> spec_coordinates_per_byte(w) == 1 && pow2(w) == 256,
{
    lemma2_to64();
    if w == 1 {
        assert(8nat / 1 == 8);
    } else if w == 2 {
        assert(8nat / 2 == 4);
    } else if w == 4 {
        assert(8nat / 4 == 2);
    } else {
        assert(8nat / 8 == 1);
    }
}

/// A byte string of `n` bytes has `n * (8 / w)` coordinates.
pub proof fn lemma_coordinate_count(n: nat, w: nat)
    requires
        valid_resolution(w),
    ensures
        n * 8 / w == n * spec_coordinates_per_byte(w),
        (n * spec_coordinates_per_byte(w)) * w / 8 == n,
{
    lemma_coordinates_per_byte(w);
    if w == 1 {
        assert(n * 8 / 1 == n * 8);
        assert((n * 8) * 1 / 8 == n);
    } else if w == 2 {
        assert(n * 8 / 2 == n * 4);
        assert((n * 4) * 2 / 8 == n);
    } else if w == 4 {
        assert(n * 8 / 4 == n * 2);
        assert((n * 2) * 4 / 8 == n);
    } else {
        assert(n * 8 / 8 == n * 1);
        assert((n * 1) * 8 / 8 == n);
    }
}

proof fn lemma_shift_mask_is_digit(byte: u8, w: usize, k: usize)
    requires
        valid_resolution(w as nat),
        k < spec_coordinates_per_byte(w as nat),
    ensures
        k * w < 8,
        ((byte >> ((k * w) as u8)) & (0xffu8 >> ((8 - w) as u8))) == (byte as nat / pow2(
            (w * k) as nat,
        )) % pow2(w as nat),
{
    lemma2_to64();
    let s: u8 = if w == 1 {
        k as u8
    } else if w == 2 {
        (2 * k) as u8
    } else if w == 4 {
        (4 * k) as u8
    } else {
        0u8
    };
    assert(s == k * w && s == w * k && s < 8);
    let m: u8 = 0xffu8 >> ((8 - w) as u8);
    let low: u8 = (byte >> s) & m;
    assert((1u8 << s) == pow2(s as nat)) by {
        vstd::bits::lemma_u8_pow2_no_overflow(s as nat);
        vstd::bits::lemma_u8_shl_is_mul(1u8, s);
    }
    let unit: u8 = 1u8 << s;
    if w == 1 {
        assert(low == (byte / unit) % 2) by (bit_vector)
            requires
                s < 8,
                unit == 1u8 << s,
                low == (byte >> s) & (0xffu8 >> 7u8),
        ;
    } else if w == 2 {
        assert(low == (byte / unit) % 4) by (bit_vector)
            requires
                s < 8,
                unit == 1u8 << s,
                low == (byte >> s) & (0xffu8 >> 6u8),
        ;
    } else if w == 4 {
        assert(low == (byte / unit) % 16) by (bit_vector)
            requires
                s < 8,
                unit == 1u8 << s,
                low == (byte >> s) & (0xffu8 >> 4u8),
        ;
    } else {
        assert(low == byte) by (bit_vector)
            requires
                s == 0,
                low == (byte >> s) & (0xffu8 >> 0u8),
        ;
        assert(byte as nat / 1 % 256 == byte);
    }
}

/// Cuts bytes into coordinates of `resolution_bits` bits each, the low bits
/// of each byte first.
pub fn bytes_to_coordinates(bytes: &[u8], resolution_bits: usize) -> (coords: Vec<u8>)
    requires
        valid_resolution(resolution_bits as nat),
        bytes@.len() * 8 <= usize::MAX,
    ensures
        coords@ == spec_bytes_to_coordinates(bytes@, resolution_bits as nat),
        coords@.len() * resolution_bits == bytes@.len() * 8,
        forall|i: int| 0 <= i < coords@.len() ==> coords@[i] < pow2(resolution_bits as nat),
{
    let per: usize = 8 / resolution_bits;
    let mask: u8 = 0xffu8 >> ((8 - resolution_bits) as u8);
    proof {
        lemma_coordinates_per_byte(resolution_bits as nat);
        lemma_coordinate_count(bytes@.len(), resolution_bits as nat);
    }
    let total: usize = bytes.len() * per;
    assert(total * resolution_bits == bytes@.len() * 8) by (nonlinear_arith)
        requires
            total == bytes@.len() * per,
            per * resolution_bits == 8,
    ;
    let mut coords: Vec<u8> = Vec::new();
    let mut i: usize = 0;
    while i < total
        invariant
            i <= total,
            valid_resolution(resolution_bits as nat),
            per == spec_coordinates_per_byte(resolution_bits as nat),
            total == bytes@.len() * per,
            mask == 0xffu8 >> ((8 - resolution_bits) as u8),
            coords@.len() == i,
            forall|j: int|
                0 <= j < i ==> coords@[j] == spec_coordinate(bytes@, resolution_bits as nat, j),
            forall|j: int| 0 <= j < i ==> coords@[j] < pow2(resolution_bits as nat),
        decreases total - i,
    {
        assert(i / per < bytes@.len()) by {
            assert(per == 8 || per == 4 || per == 2 || per == 1);
        }
        let byte = bytes[i / per];
        let k: usize = i % per;
        proof {
            lemma_shift_mask_is_digit(byte, resolution_bits, k);
            lemma2_to64();
        }
        let shift: u8 = (k * resolution_bits) as u8;
        let coordinate: u8 = (byte >> shift) & mask;
        coords.push(coordinate);
        i += 1;
    }
    assert(coords@ =~= spec_bytes_to_coordinates(bytes@, resolution_bits as nat));
    coords
}

/// At eight bits to a coordinate, the coordinates are the bytes.
pub proof fn lemma_full_byte_coordinates(bytes: Seq<u8>)
    ensures
        spec_bytes_to_coordinates(bytes, 8) == bytes,
{
    lemma_coordinates_per_byte(8);
    lemma_coordinate_count(bytes.len(), 8);
    assert forall|i: int| 0 <= i < bytes.len() implies spec_coordinate(bytes, 8, i) == bytes[i] by {
        assert(i / 1 == i && i % 1 == 0);
        assert(pow2((8 * 0) as nat) == 1) by {
            lemma2_to64();
        }
        assert(bytes[i] as nat / 1 % 256 == bytes[i]);
    }
    assert(spec_bytes_to_coordinates(bytes, 8) =~= bytes);
}

proof fn lemma_digits_value_unrolled(digits: Seq<u8>, w: nat)
    requires
        digits.len() == 1 || digits.len() == 2 || digits.len() == 4 || digits.len() == 8,
    ensures
        digits.len() == 1 ==> spec_digits_value(digits, w) == digits[0] as nat,
        digits.len() == 2 ==> spec_digits_value(digits, w) == digits[0] as nat + pow2(w) * (
        digits[1] as nat),
        digits.len() == 4 ==> spec_digits_value(digits, w) == digits[0] as nat + pow2(w) * (
        digits[1] as nat + pow2(w) * (digits[2] as nat + pow2(w) * (digits[3] as nat))),
        digits.len() == 8 ==> spec_digits_value(digits, w) == digits[0] as nat + pow2(w) * (
        digits[1] as nat + pow2(w) * (digits[2] as nat + pow2(w) * (digits[3] as nat + pow2(w) * (
        digits[4] as nat + pow2(w) * (digits[5] as nat + pow2(w) * (digits[6] as nat + pow2(w) * (
        digits[7] as nat))))))),
    decreases digits.len(),
{
    let d1 = digits.drop_first();
    let d2 = d1.drop_first();
    let d3 = d2.drop_first();
    let d4 = d3.drop_first();
    assert(spec_digits_value(digits, w) == digits[0] as nat + pow2(w) * spec_digits_value(d1, w));
    if digits.len() == 1 {
        assert(spec_digits_value(d1, w) == 0);
        assert(pow2(w) * 0 == 0);
    } else {
        assert(d1[0] == digits[1]);
        assert(spec_digits_value(d1, w) == digits[1] as nat + pow2(w) * spec_digits_value(d2, w));
        if digits.len() == 2 {
            assert(spec_digits_value(d2, w) == 0);
            assert(pow2(w) * 0 == 0);
        } else {
            assert(d2[0] == digits[2] && d3[0] == digits[3]);
            assert(spec_digits_value(d2, w) == digits[2] as nat + pow2(w) * spec_digits_value(
                d3,
                w,
            ));
            assert(spec_digits_value(d3, w) == digits[3] as nat + pow2(w) * spec_digits_value(
                d4,
                w,
            ));
            if digits.len() == 4 {
                assert(spec_digits_value(d4, w) == 0);
                assert(pow2(w) * 0 == 0);
            } else {
                lemma_digits_value_unrolled(d4, w);
                assert(d4[0] == digits[4] && d4[1] == digits[5] && d4[2] == digits[6] && d4[3]
                    == digits[7]);
            }
        }
    }
}

proof fn lemma_base_2_digits(x: u8)
    by (bit_vector)
    ensures
        x == x % 2 + 2 * (x / 2 % 2) + 4 * (x / 4 % 2) + 8 * (x / 8 % 2) + 16 * (x / 16 % 2) + 32
            * (x / 32 % 2) + 64 * (x / 64 % 2) + 128 * (x / 128 % 2),
{
}

proof fn lemma_base_4_digits(x: u8)
    by (bit_vector)
    ensures
        x == x % 4 + 4 * (x / 4 % 4) + 16 * (x / 16 % 4) + 64 * (x / 64 % 4),
{
}

proof fn lemma_base_16_digits(x: u8)
    by (bit_vector)
    ensures
        x == x % 16 + 16 * (x / 16 % 16),
{
}

proof fn lemma_base_2_value(c0: u8, c1: u8, c2: u8, c3: u8, c4: u8, c5: u8, c6: u8, c7: u8)
    by (bit_vector)
    requires
        c0 < 2,
        c1 < 2,
        c2 < 2,
        c3 < 2,
        c4 < 2,
        c5 < 2,
        c6 < 2,
        c7 < 2,
    ensures
        c0 + 2 * c1 + 4 * c2 + 8 * c3 + 16 * c4 + 32 * c5 + 64 * c6 + 128 * c7 < 256,
        (c0 + 2 * c1 + 4 * c2 + 8 * c3 + 16 * c4 + 32 * c5 + 64 * c6 + 128 * c7) % 2 == c0,
        (c0 + 2 * c1 + 4 * c2 + 8 * c3 + 16 * c4 + 32 * c5 + 64 * c6 + 128 * c7) / 2 % 2 == c1,
        (c0 + 2 * c1 + 4 * c2 + 8 * c3 + 16 * c4 + 32 * c5 + 64 * c6 + 128 * c7) / 4 % 2 == c2,
        (c0 + 2 * c1 + 4 * c2 + 8 * c3 + 16 * c4 + 32 * c5 + 64 * c6 + 128 * c7) / 8 % 2 == c3,
        (c0 + 2 * c1 + 4 * c2 + 8 * c3 + 16 * c4 + 32 * c5 + 64 * c6 + 128 * c7) / 16 % 2 == c4,
        (c0 + 2 * c1 + 4 * c2 + 8 * c3 + 16 * c4 + 32 * c5 + 64 * c6 + 128 * c7) / 32 % 2 == c5,
        (c0 + 2 * c1 + 4 * c2 + 8 * c3 + 16 * c4 + 32 * c5 + 64 * c6 + 128 * c7) / 64 % 2 == c6,
        (c0 + 2 * c1 + 4 * c2 + 8 * c3 + 16 * c4 + 32 * c5 + 64 * c6 + 128 * c7) / 128 % 2 == c7,
{
}

proof fn lemma_base_4_value(c0: u8, c1: u8, c2: u8, c3: u8)
    by (bit_vector)
    requires
        c0 < 4,
        c1 < 4,
        c2 < 4,
        c3 < 4,
    ensures
        c0 + 4 * c1 + 16 * c2 + 64 * c3 < 256,
        (c0 + 4 * c1 + 16 * c2 + 64 * c3) % 4 == c0,
        (c0 + 4 * c1 + 16 * c2 + 64 * c3) / 4 % 4 == c1,
        (c0 + 4 * c1 + 16 * c2 + 64 * c3) / 16 % 4 == c2,
        (c0 + 4 * c1 + 16 * c2 + 64 * c3) / 64 % 4 == c3,
{
}

proof fn lemma_base_16_value(c0: u8, c1: u8)
    by (bit_vector)
    requires
        c0 < 16,
        c1 < 16,
    ensures
        c0 + 16 * c1 < 256,
        (c0 + 16 * c1) % 16 == c0,
        (c0 + 16 * c1) / 16 % 16 == c1,
{
}

proof fn lemma_digits_give_byte(digits: Seq<u8>, w: nat, x: u8)
    requires
        valid_resolution(w),
        digits.len() == spec_coordinates_per_byte(w),
        forall|k: int| 0 <= k < digits.len() ==> digits[k] == #[trigger] spec_digit(x as nat, w, k),
    ensures
        spec_digits_value(digits, w) == x,
{
    lemma2_to64();
    lemma_coordinates_per_byte(w);
    lemma_digits_value_unrolled(digits, w);
    if w == 8 {
        assert(pow2((w * 0) as nat) == 1);
        assert(digits[0] == spec_digit(x as nat, w, 0));
    } else if w == 4 {
        assert(pow2((w * 0) as nat) == 1);
        assert(pow2((w * 1) as nat) == 16);
        assert(digits[0] == spec_digit(x as nat, w, 0));
        assert(digits[1] == spec_digit(x as nat, w, 1));
        lemma_base_16_digits(x);
    } else if w == 2 {
        assert(pow2((w * 0) as nat) == 1);
        assert(pow2((w * 1) as nat) == 4);
        assert(pow2((w * 2) as nat) == 16);
        assert(pow2((w * 3) as nat) == 64);
        assert(digits[0] == spec_digit(x as nat, w, 0));
        assert(digits[1] == spec_digit(x as nat, w, 1));
        assert(digits[2] == spec_digit(x as nat, w, 2));
        assert(digits[3] == spec_digit(x as nat, w, 3));
        lemma_base_4_digits(x);
    } else {
        assert(pow2((w * 0) as nat) == 1);
        assert(pow2((w * 1) as nat) == 2);
        assert(pow2((w * 2) as nat) == 4);
        assert(pow2((w * 3) as nat) == 8);
        assert(pow2((w * 4) as nat) == 16);
        assert(pow2((w * 5) as nat) == 32);
        assert(pow2((w * 6) as nat) == 64);
        assert(pow2((w * 7) as nat) == 128);
        assert(digits[0] == spec_digit(x as nat, w, 0));
        assert(digits[1] == spec_digit(x as nat, w, 1));
        assert(digits[2] == spec_digit(x as nat, w, 2));
        assert(digits[3] == spec_digit(x as nat, w, 3));
        assert(digits[4] == spec_digit(x as nat, w, 4));
        assert(digits[5] == spec_digit(x as nat, w, 5));
        assert(digits[6] == spec_digit(x as nat, w, 6));
        assert(digits[7] == spec_digit(x as nat, w, 7));
        lemma_base_2_digits(x);
    }
}

proof fn lemma_byte_gives_digits(digits: Seq<u8>, w: nat, k: int)
    requires
        valid_resolution(w),
        digits.len() == spec_coordinates_per_byte(w),
        0 <= k < digits.len(),
        forall|n: int| 0 <= n < digits.len() ==> #[trigger] digits[n] < pow2(w),
    ensures
        spec_digits_value(digits, w) < 256,
        spec_digit(spec_digits_value(digits, w), w, k) == digits[k],
{
    lemma2_to64();
    lemma_coordinates_per_byte(w);
    lemma_digits_value_unrolled(digits, w);
    let v = spec_digits_value(digits, w);
    if w == 8 {
        assert(pow2((w * 0) as nat) == 1);
        assert(digits[0] < 256);
        assert(spec_digit(v, w, 0) == digits[0]);
    } else if w == 4 {
        assert(pow2((w * 0) as nat) == 1);
        assert(pow2((w * 1) as nat) == 16);
        assert(digits[0] < 16);
        assert(digits[1] < 16);
        lemma_base_16_value(digits[0], digits[1]);
        assert(spec_digit(v, w, 0) == digits[0]);
        assert(spec_digit(v, w, 1) == digits[1]);
    } else if w == 2 {
        assert(pow2((w * 0) as nat) == 1);
        assert(pow2((w * 1) as nat) == 4);
        assert(pow2((w * 2) as nat) == 16);
        assert(pow2((w * 3) as nat) == 64);
        assert(digits[0] < 4);
        assert(digits[1] < 4);
        assert(digits[2] < 4);
        assert(digits[3] < 4);
        lemma_base_4_value(digits[0], digits[1], digits[2], digits[3]);
        assert(spec_digit(v, w, 0) == digits[0]);
        assert(spec_digit(v, w, 1) == digits[1]);
        assert(spec_digit(v, w, 2) == digits[2]);
        assert(spec_digit(v, w, 3) == digits[3]);
    } else {
        assert(pow2((w * 0) as nat) == 1);
        assert(pow2((w * 1) as nat) == 2);
        assert(pow2((w * 2) as nat) == 4);
        assert(pow2((w * 3) as nat) == 8);
        assert(pow2((w * 4) as nat) == 16);
        assert(pow2((w * 5) as nat) == 32);
        assert(pow2((w * 6) as nat) == 64);
        assert(pow2((w * 7) as nat) == 128);
        assert(digits[0] < 2);
        assert(digits[1] < 2);
        assert(digits[2] < 2);
        assert(digits[3] < 2);
        assert(digits[4] < 2);
        assert(digits[5] < 2);
        assert(digits[6] < 2);
        assert(digits[7] < 2);
        lemma_base_2_value(
            digits[0],
            digits[1],
            digits[2],
            digits[3],
            digits[4],
            digits[5],
            digits[6],
            digits[7],
        );
        assert(spec_digit(v, w, 0) == digits[0]);
        assert(spec_digit(v, w, 1) == digits[1]);
        assert(spec_digit(v, w, 2) == digits[2]);
        assert(spec_digit(v, w, 3) == digits[3]);
        assert(spec_digit(v, w, 4) == digits[4]);
        assert(spec_digit(v, w, 5) == digits[5]);
        assert(spec_digit(v, w, 6) == digits[6]);
        assert(spec_digit(v, w, 7) == digits[7]);
    }
}

/// Packing undoes cutting: the coordinates of a byte string stand for that
/// byte string; there are `8 / w` of them for each byte, each below `2^w`.
pub proof fn lemma_coordinates_to_bytes_of_coordinates(bytes: Seq<u8>, w: nat)
    requires
        valid_resolution(w),
    ensures
        spec_bytes_to_coordinates(bytes, w).len() == bytes.len() * spec_coordinates_per_byte(w),
        forall|i: int|
            0 <= i < spec_bytes_to_coordinates(bytes, w).len() ==> #[trigger] spec_bytes_to_coordinates(
                bytes,
                w,
            )[i] < pow2(w),
        spec_coordinates_to_bytes(spec_bytes_to_coordinates(bytes, w), w) == bytes,
{
    lemma_coordinates_per_byte(w);
    lemma_coordinate_count(bytes.len(), w);
    let per = spec_coordinates_per_byte(w);
    let coords = spec_bytes_to_coordinates(bytes, w);
    assert forall|i: int| 0 <= i < coords.len() implies #[trigger] coords[i] < pow2(w) by {
        vstd::arithmetic::power2::lemma_pow2_pos(w);
    }
    let packed = spec_coordinates_to_bytes(coords, w);
    assert forall|j: int| 0 <= j < bytes.len() implies packed[j] == bytes[j] by {
        assert(0 <= j * per && (j + 1) * per <= coords.len() && (j + 1) * per == j * per + per)
            by (nonlinear_arith)
            requires
                0 <= j < bytes.len(),
                coords.len() == bytes.len() * per,
        ;
        let digits = coords.subrange(j * per, (j + 1) * per);
        assert forall|k: int| 0 <= k < digits.len() implies digits[k] == #[trigger] spec_digit(
            bytes[j] as nat,
            w,
            k,
        ) by {
            let i = j * per + k;
            assert(i / (per as int) == j && i % (per as int) == k) by {
                vstd::arithmetic::div_mod::lemma_fundamental_div_mod_converse(i, per as int, j, k);
            }
            assert(digits[k] == coords[i]);
        }
        lemma_digits_give_byte(digits, w, bytes[j]);
    }
    assert(packed =~= bytes);
}

/// Cutting undoes packing: coordinates below `2^w`, a whole number of bytes
/// of them, are the coordinates of the byte string that they stand for.
pub proof fn lemma_coordinates_of_coordinates_to_bytes(coords: Seq<u8>, w: nat)
    requires
        valid_resolution(w),
        coords.len() % spec_coordinates_per_byte(w) == 0,
        forall|i: int| 0 <= i < coords.len() ==> #[trigger] coords[i] < pow2(w),
    ensures
        spec_coordinates_to_bytes(coords, w).len() * spec_coordinates_per_byte(w) == coords.len(),
        spec_bytes_to_coordinates(spec_coordinates_to_bytes(coords, w), w) == coords,
{
    lemma_coordinates_per_byte(w);
    let per = spec_coordinates_per_byte(w);
    let bytes = spec_coordinates_to_bytes(coords, w);
    let whole = coords.len() / per;
    assert(coords.len() == whole * per) by {
        vstd::arithmetic::div_mod::lemma_fundamental_div_mod(coords.len() as int, per as int);
        assert(per * whole == whole * per) by (nonlinear_arith);
    }
    lemma_coordinate_count(whole, w);
    assert(bytes.len() == whole);
    let again = spec_bytes_to_coordinates(bytes, w);
    assert forall|i: int| 0 <= i < coords.len() implies again[i] == coords[i] by {
        let j = i / (per as int);
        let k = i % (per as int);
        assert(i == j * per + k && 0 <= j < bytes.len() && (j + 1) * per <= coords.len() && (j + 1)
            * per == j * per + per) by {
            vstd::arithmetic::div_mod::lemma_fundamental_div_mod(i, per as int);
            assert(0 <= j < bytes.len() && (j + 1) * per <= coords.len() && (j + 1) * per == j * per
                + per && per * j == j * per) by (nonlinear_arith)
                requires
                    i == per * j + k,
                    0 <= k < per,
                    0 <= i < bytes.len() * per,
                    coords.len() == bytes.len() * per,
            ;
        }
        let digits = coords.subrange(j * per, (j + 1) * per);
        assert forall|n: int| 0 <= n < digits.len() implies #[trigger] digits[n] < pow2(w) by {
            assert(digits[n] == coords[j * per + n]);
        }
        lemma_byte_gives_digits(digits, w, k);
        assert(digits[k] == coords[i]);
        assert(bytes[j] == spec_digits_value(digits, w) as u8);
    }
    assert(again =~= coords);
}

/// A codeword has one coordinate for each chain, each a position on its
/// chain.
pub proof fn lemma_codeword_bounds(spec: Spec, param: Seq<u8>, message: Seq<u8>, nonce: Seq<u8>)
    requires
        spec.wf(),
    ensures
        spec_codeword(spec, param, message, nonce).len() == spec.spec_dimension(),
        forall|i: int|
            0 <= i < spec.spec_dimension() ==> #[trigger] spec_codeword(
                spec,
                param,
                message,
                nonce,
            )[i] < spec.spec_chain_len(),
{
    let w = spec.coordinate_resolution_bits as nat;
    let bytes = spec_prefix(
        spec_tweak_hash_message(param, message, nonce),
        spec.message_hash_len as nat,
    );
    lemma_coordinates_to_bytes_of_coordinates(bytes, w);
    lemma_coordinate_count(bytes.len(), w);
}

/// Coordinates below `bound` sum to at most `bound - 1` for each of them.
pub proof fn lemma_sum_bound(coords: Seq<u8>, bound: nat)
    requires
        bound >= 1,
        forall|i: int| 0 <= i < coords.len() ==> #[trigger] coords[i] < bound,
    ensures
        spec_sum(coords) <= coords.len() * (bound - 1),
    decreases coords.len(),
{
    if coords.len() > 0 {
        lemma_sum_bound(coords.drop_last(), bound);
        assert(coords.last() == coords[coords.len() - 1]);
        assert((coords.len() - 1) * (bound - 1) + (bound - 1) == coords.len() * (bound - 1))
            by (nonlinear_arith);
    }
}

/// The coordinates of a codeword sum to at most `chain_len - 1` for each
/// chain: no codeword reaches a target sum above that.
pub proof fn lemma_codeword_sum_bound(
    spec: Spec,
    param: Seq<u8>,
    message: Seq<u8>,
    nonce: Seq<u8>,
)
    requires
        spec.wf(),
    ensures
        spec_sum(spec_codeword(spec, param, message, nonce)) <= spec.spec_dimension() * (
        spec.spec_chain_len() - 1),
        spec.target_sum > spec.spec_dimension() * (spec.spec_chain_len() - 1)
            ==> !spec_codeword_valid(spec, param, message, nonce),
{
    lemma_codeword_bounds(spec, param, message, nonce);
    spec.lemma_wf_bounds();
    lemma_sum_bound(spec_codeword(spec, param, message, nonce), spec.spec_chain_len());
}

/// A point of the hypercube: one coordinate for each chain.
pub struct Codeword {
    coords: Vec<u8>,
}

impl View for Codeword {
    type V = Seq<u8>;

    closed spec fn view(&self) -> Seq<u8> {
        self.coords@
    }
}

impl Codeword {
    #[verifier::type_invariant]
    spec fn bounded(self) -> bool {
        self.coords@.len() <= 256
    }

    /// The codeword of a message and a nonce under a signer's parameter.
    pub fn new(spec: &Spec, param: &Param, message: &Message, nonce: &Nonce) -> (codeword: Codeword)
        requires
            spec.wf(),
        ensures
            codeword@ == spec_codeword(*spec, param@, message@, nonce@),
            codeword@.len() == spec.spec_dimension(),
            forall|i: int| 0 <= i < codeword@.len() ==> codeword@[i] < spec.spec_chain_len(),
    {
        let full_hash = tweak_hash_message(param, message, nonce);
        let trunc_hash = slice_subrange(full_hash.as_ref(), 0, spec.message_hash_len);
        assert(trunc_hash@ =~= spec_prefix(full_hash@, spec.message_hash_len as nat));
        let coords = bytes_to_coordinates(trunc_hash, spec.coordinate_resolution_bits);
        proof {
            spec.lemma_wf_bounds();
        }
        Codeword { coords }
    }

    /// The sum of the coordinates: how many chain steps lie between the
    /// secret key and the signature.
    pub fn sum(&self) -> (sum: usize)
        ensures
            sum == spec_sum(self@),
    {
        proof {
            use_type_invariant(self);
        }
        let mut sum: usize = 0;
        let mut i: usize = 0;
        assert(self.coords@.take(0) =~= Seq::<u8>::empty());
        while i < self.coords.len()
            invariant
                i <= self.coords@.len() <= 256,
                sum == spec_sum(self.coords@.take(i as int)),
                sum <= 255 * i,
            decreases self.coords@.len() - i,
        {
            assert(self.coords@.take(i + 1).drop_last() =~= self.coords@.take(i as int));
            sum += self.coords[i] as usize;
            i += 1;
        }
        assert(self.coords@.take(i as int) =~= self.coords@);
        sum
    }

    /// The number of coordinates.
    pub fn dimension(&self) -> (d: usize)
        ensures
            d == self@.len(),
    {
        self.coords.len()
    }

    /// The coordinates, one for each chain.
    pub fn coords(&self) -> (coords: &[u8])
        ensures
            coords@ == self@,
    {
        self.coords.as_slice()
    }
}

/// The codeword of a message and a nonce, if it is valid: if its coordinates
/// have the target sum of the instantiation.
pub fn new_valid(spec: &Spec, param: &Param, message: &Message, nonce: &Nonce) -> (res: Option<
    Codeword,
>)
    requires
        spec.wf(),
    ensures
        res is Some <==> spec_codeword_valid(*spec, param@, message@, nonce@),
        res matches Some(codeword) ==> {
            &&& codeword@ == spec_codeword(*spec, param@, message@, nonce@)
            &&& codeword@.len() == spec.spec_dimension()
            &&& forall|i: int| 0 <= i < codeword@.len() ==> codeword@[i] < spec.spec_chain_len()
        },
{
    let codeword = Codeword::new(spec, param, message, nonce);
    if codeword.sum() == spec.target_sum {
        Some(codeword)
    } else {
        None
    }
}

/// Draws nonces until one gives a valid codeword, at most `max_retries`
/// times. Each attempt draws a fresh nonce; nothing is kept between attempts.
///
/// Which nonces come is up to the generator. What comes back is valid; and
/// nothing comes back only without an attempt or after an attempt whose nonce
/// gave no valid codeword.
pub fn grind(
    spec: &Spec,
    max_retries: usize,
    param: &Param,
    message: &Message,
    rng: &mut StdRng,
) -> (res: Option<(Codeword, Nonce)>)
    requires
        spec.wf(),
    ensures
        max_retries == 0 ==> res is None,
        res matches Some((codeword, nonce)) ==> {
            &&& spec_codeword_valid(*spec, param@, message@, nonce@)
            &&& codeword@ == spec_codeword(*spec, param@, message@, nonce@)
            &&& codeword@.len() == spec.spec_dimension()
            &&& forall|i: int| 0 <= i < codeword@.len() ==> codeword@[i] < spec.spec_chain_len()
        },
        res is None && max_retries > 0 ==> exists|nonce: Nonce| !#[trigger] spec_codeword_valid(
            *spec,
            param@,
            message@,
            nonce@,
        ),
{
    let mut attempt: usize = 0;
    while attempt < max_retries
        invariant
            spec.wf(),
            attempt <= max_retries,
            attempt > 0 ==> exists|nonce: Nonce| !#[trigger] spec_codeword_valid(
                *spec,
                param@,
                message@,
                nonce@,
            ),
        decreases max_retries - attempt,
    {
        let nonce = Nonce::random(rng);
        match new_valid(spec, param, message, &nonce) {
            Some(codeword) => {
                return Some((codeword, nonce));
            },
            None => {
                assert(!spec_codeword_valid(*spec, param@, message@, nonce@));
            },
        }
        attempt += 1;
    }
    None
}

} // verus!
