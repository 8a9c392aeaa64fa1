//! Big-endian 32-bit integers on the wire.

use vstd::prelude::*;

verus! {

/// The four big-endian bytes of a 32-bit value.
pub open spec fn u32_be(x: u32) -> Seq<u8> {
    seq![
        ((x >> 24) & 0xff) as u8,
        ((x >> 16) & 0xff) as u8,
        ((x >> 8) & 0xff) as u8,
        (x & 0xff) as u8,
    ]
}

/// The 32-bit value read from four big-endian bytes.
pub open spec fn be_u32(s: Seq<u8>) -> u32 {
    ((s[0] as u32) << 24 | (s[1] as u32) << 16 | (s[2] as u32) << 8 | (s[3] as u32)) as u32
}

/// Reading back the four big-endian bytes of a value gives the value.
pub proof fn lemma_u32_be_round_trip(x: u32)
    ensures
        be_u32(u32_be(x)) == x,
{
    assert(((((x >> 24) & 0xff) as u8 as u32) << 24 | (((x >> 16) & 0xff) as u8 as u32) << 16 | ((
    (x >> 8) & 0xff) as u8 as u32) << 8 | ((x & 0xff) as u8 as u32)) as u32 == x) by (bit_vector);
}

/// Writing back the value read from four bytes gives the bytes.
pub proof fn lemma_be_u32_round_trip(s: Seq<u8>)
    requires
        s.len() == 4,
    ensures
        u32_be(be_u32(s)) =~= s,
{
    let b0 = s[0];
    let b1 = s[1];
    let b2 = s[2];
    let b3 = s[3];
    assert(((((b0 as u32) << 24 | (b1 as u32) << 16 | (b2 as u32) << 8 | (b3 as u32)) as u32 >> 24)
        & 0xff) as u8 == b0 && ((((b0 as u32) << 24 | (b1 as u32) << 16 | (b2 as u32) << 8 | (
    b3 as u32)) as u32 >> 16) & 0xff) as u8 == b1 && ((((b0 as u32) << 24 | (b1 as u32) << 16 | (
    b2 as u32) << 8 | (b3 as u32)) as u32 >> 8) & 0xff) as u8 == b2 && (((b0 as u32) << 24 | (
    b1 as u32) << 16 | (b2 as u32) << 8 | (b3 as u32)) as u32 & 0xff) as u8 == b3) by (bit_vector);
}

/// Builds the four big-endian bytes of a 32-bit value.
pub fn u32_to_be(x: u32) -> (r: [u8; 4])
    ensures
        r@ == u32_be(x),
{
    let r: [u8; 4] = [
        ((x >> 24) & 0xff) as u8,
        ((x >> 16) & 0xff) as u8,
        ((x >> 8) & 0xff) as u8,
        (x & 0xff) as u8,
    ];
    assert(r@ =~= u32_be(x));
    r
}

/// Reads a 32-bit value from four big-endian bytes.
pub fn be_to_u32(b0: u8, b1: u8, b2: u8, b3: u8) -> (r: u32)
    ensures
        r == be_u32(seq![b0, b1, b2, b3]),
{
    (b0 as u32) << 24 | (b1 as u32) << 16 | (b2 as u32) << 8 | (b3 as u32)
}

} // verus!
