//! Big-endian framing of the integers that enter a hash.

use vstd::prelude::*;

verus! {

/// The four bytes of `x`, most significant first.
pub open spec fn spec_be_bytes_u32(x: u32) -> Seq<u8> {
    seq![
        (x / 0x100_0000) as u8,
        (x / 0x1_0000 % 0x100) as u8,
        (x / 0x100 % 0x100) as u8,
        (x % 0x100) as u8,
    ]
}

/// The eight bytes of `x`, most significant first.
pub open spec fn spec_be_bytes_u64(x: u64) -> Seq<u8> {
    seq![
        (x / 0x100_0000_0000_0000) as u8,
        (x / 0x1_0000_0000_0000 % 0x100) as u8,
        (x / 0x100_0000_0000 % 0x100) as u8,
        (x / 0x1_0000_0000 % 0x100) as u8,
        (x / 0x100_0000 % 0x100) as u8,
        (x / 0x1_0000 % 0x100) as u8,
        (x / 0x100 % 0x100) as u8,
        (x % 0x100) as u8,
    ]
}

/// The big-endian bytes of a 32-bit integer.
pub fn be_bytes_u32(x: u32) -> (bytes: [u8; 4])
    ensures
        bytes@ == spec_be_bytes_u32(x),
{
    let b0: u8 = (x >> 24) as u8;
    let b1: u8 = ((x >> 16) & 0xff) as u8;
    let b2: u8 = ((x >> 8) & 0xff) as u8;
    let b3: u8 = (x & 0xff) as u8;
    assert(b0 == (x / 0x100_0000) as u8 && b1 == (x / 0x1_0000 % 0x100) as u8 && b2 == (x / 0x100
        % 0x100) as u8 && b3 == (x % 0x100) as u8) by (bit_vector)
        requires
            b0 == (x >> 24) as u8,
            b1 == ((x >> 16) & 0xff) as u8,
            b2 == ((x >> 8) & 0xff) as u8,
            b3 == (x & 0xff) as u8,
    ;
    let bytes = [b0, b1, b2, b3];
    assert(bytes@ =~= spec_be_bytes_u32(x));
    bytes
}

/// The big-endian bytes of a 64-bit integer.
pub fn be_bytes_u64(x: u64) -> (bytes: [u8; 8])
    ensures
        bytes@ == spec_be_bytes_u64(x),
{
    let b0: u8 = (x >> 56) as u8;
    let b1: u8 = ((x >> 48) & 0xff) as u8;
    let b2: u8 = ((x >> 40) & 0xff) as u8;
    let b3: u8 = ((x >> 32) & 0xff) as u8;
    let b4: u8 = ((x >> 24) & 0xff) as u8;
    let b5: u8 = ((x >> 16) & 0xff) as u8;
    let b6: u8 = ((x >> 8) & 0xff) as u8;
    let b7: u8 = (x & 0xff) as u8;
    assert(b0 == (x / 0x100_0000_0000_0000) as u8 && b1 == (x / 0x1_0000_0000_0000 % 0x100) as u8
        && b2 == (x / 0x100_0000_0000 % 0x100) as u8 && b3 == (x / 0x1_0000_0000 % 0x100) as u8)
        by (bit_vector)
        requires
            b0 == (x >> 56) as u8,
            b1 == ((x >> 48) & 0xff) as u8,
            b2 == ((x >> 40) & 0xff) as u8,
            b3 == ((x >> 32) & 0xff) as u8,
    ;
    assert(b4 == (x / 0x100_0000 % 0x100) as u8 && b5 == (x / 0x1_0000 % 0x100) as u8 && b6 == (x
        / 0x100 % 0x100) as u8 && b7 == (x % 0x100) as u8) by (bit_vector)
        requires
            b4 == ((x >> 24) & 0xff) as u8,
            b5 == ((x >> 16) & 0xff) as u8,
            b6 == ((x >> 8) & 0xff) as u8,
            b7 == (x & 0xff) as u8,
    ;
    let bytes = [b0, b1, b2, b3, b4, b5, b6, b7];
    assert(bytes@ =~= spec_be_bytes_u64(x));
    bytes
}

} // verus!
