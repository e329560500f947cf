//! Little-endian encodings of the fixed-width integers that the
//! on-disk formats use.

use vstd::prelude::*;

verus! {

/// The `u32` value that a little-endian 4-byte sequence denotes.
pub open spec fn spec_u32_from_le(b: Seq<u8>) -> u32
    recommends
        b.len() == 4,
{
    (b[0] as u32) | ((b[1] as u32) << 8) | ((b[2] as u32) << 16) | ((b[3] as u32) << 24)
}

/// The little-endian 4-byte encoding of a `u32`.
pub open spec fn spec_u32_to_le(v: u32) -> Seq<u8> {
    seq![
        (v & 0xff) as u8,
        ((v >> 8) & 0xff) as u8,
        ((v >> 16) & 0xff) as u8,
        ((v >> 24) & 0xff) as u8,
    ]
}

/// Decoding inverts encoding: the four bytes of `v` reassemble to `v`.
pub broadcast proof fn lemma_u32_le_round_trip(v: u32)
    ensures
        #[trigger] spec_u32_from_le(spec_u32_to_le(v)) == v,
{
    assert(spec_u32_from_le(spec_u32_to_le(v)) == v) by (bit_vector);
}

/// Encoding inverts decoding on 4-byte sequences.
pub proof fn lemma_u32_le_injective(b: Seq<u8>)
    requires
        b.len() == 4,
    ensures
        spec_u32_to_le(spec_u32_from_le(b)) =~= b,
{
    let v = spec_u32_from_le(b);
    let b0 = b[0];
    let b1 = b[1];
    let b2 = b[2];
    let b3 = b[3];
    assert({
        let v2 = (b0 as u32) | ((b1 as u32) << 8) | ((b2 as u32) << 16) | ((b3 as u32) << 24);
        (v2 & 0xff) as u8 == b0 && ((v2 >> 8) & 0xff) as u8 == b1 && ((v2 >> 16) & 0xff) as u8
            == b2 && ((v2 >> 24) & 0xff) as u8 == b3
    }) by (bit_vector);
}

/// The `u64` value that a little-endian 8-byte sequence denotes.
pub open spec fn spec_u64_from_le(b: Seq<u8>) -> u64
    recommends
        b.len() == 8,
{
    (b[0] as u64) | ((b[1] as u64) << 8) | ((b[2] as u64) << 16) | ((b[3] as u64) << 24) | ((
    b[4] as u64) << 32) | ((b[5] as u64) << 40) | ((b[6] as u64) << 48) | ((b[7] as u64) << 56)
}

/// The little-endian 8-byte encoding of a `u64`.
pub open spec fn spec_u64_to_le(v: u64) -> Seq<u8> {
    seq![
        (v & 0xff) as u8,
        ((v >> 8) & 0xff) as u8,
        ((v >> 16) & 0xff) as u8,
        ((v >> 24) & 0xff) as u8,
        ((v >> 32) & 0xff) as u8,
        ((v >> 40) & 0xff) as u8,
        ((v >> 48) & 0xff) as u8,
        ((v >> 56) & 0xff) as u8,
    ]
}

/// Little-endian encoding of a `u64`, as executable code.
pub fn u64_to_le_bytes(v: u64) -> (r: Vec<u8>)
    ensures
        r@ =~= spec_u64_to_le(v),
        r.len() == 8,
{
    let mut r: Vec<u8> = Vec::new();
    r.push((v & 0xff) as u8);
    r.push(((v >> 8) & 0xff) as u8);
    r.push(((v >> 16) & 0xff) as u8);
    r.push(((v >> 24) & 0xff) as u8);
    r.push(((v >> 32) & 0xff) as u8);
    r.push(((v >> 40) & 0xff) as u8);
    r.push(((v >> 48) & 0xff) as u8);
    r.push(((v >> 56) & 0xff) as u8);
    r
}

/// Little-endian encoding of `v`, as executable code.
pub fn u32_to_le_bytes(v: u32) -> (r: Vec<u8>)
    ensures
        r@ =~= spec_u32_to_le(v),
        r.len() == 4,
{
    let mut r: Vec<u8> = Vec::new();
    r.push((v & 0xff) as u8);
    r.push(((v >> 8) & 0xff) as u8);
    r.push(((v >> 16) & 0xff) as u8);
    r.push(((v >> 24) & 0xff) as u8);
    r
}

/// The `u32` denoted by four little-endian bytes, as executable code.
pub fn u32_from_le_bytes(b0: u8, b1: u8, b2: u8, b3: u8) -> (r: u32)
    ensures
        r == spec_u32_from_le(seq![b0, b1, b2, b3]),
{
    (b0 as u32) | ((b1 as u32) << 8) | ((b2 as u32) << 16) | ((b3 as u32) << 24)
}

} // verus!
