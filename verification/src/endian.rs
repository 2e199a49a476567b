//! Little-endian codec: spec-level byte images of the wire scalars, and
//! verified reads and writes of them against a byte buffer.

use vstd::prelude::*;

verus! {

/// Little-endian byte image of a `u16`.
pub open spec fn le16(x: u16) -> Seq<u8> {
    seq![(x & 0xff) as u8, ((x >> 8) & 0xff) as u8]
}

/// Little-endian byte image of a `u32`.
pub open spec fn le32(x: u32) -> Seq<u8> {
    seq![
        (x & 0xff) as u8,
        ((x >> 8) & 0xff) as u8,
        ((x >> 16) & 0xff) as u8,
        ((x >> 24) & 0xff) as u8,
    ]
}

/// Little-endian byte image of a `u64`.
pub open spec fn le64(x: u64) -> Seq<u8> {
    seq![
        (x & 0xff) as u8,
        ((x >> 8) & 0xff) as u8,
        ((x >> 16) & 0xff) as u8,
        ((x >> 24) & 0xff) as u8,
        ((x >> 32) & 0xff) as u8,
        ((x >> 40) & 0xff) as u8,
        ((x >> 48) & 0xff) as u8,
        ((x >> 56) & 0xff) as u8,
    ]
}

/// The `u16` whose little-endian image is `[b0, b1]`.
pub open spec fn u16_of_le(b0: u8, b1: u8) -> u16 {
    (b0 as u16) | ((b1 as u16) << 8)
}

/// The `u32` whose little-endian image is `[b0, b1, b2, b3]`.
pub open spec fn u32_of_le(b0: u8, b1: u8, b2: u8, b3: u8) -> u32 {
    (b0 as u32) | ((b1 as u32) << 8) | ((b2 as u32) << 16) | ((b3 as u32) << 24)
}

/// Decoding the little-endian image of a `u16` gives the value back.
pub proof fn lemma_le16_roundtrip(x: u16)
    ensures
        u16_of_le(le16(x)[0], le16(x)[1]) == x,
{
    assert(((x & 0xff) as u8 as u16) | ((((x >> 8) & 0xff) as u8 as u16) << 8) == x)
        by (bit_vector);
}

/// Encoding the decoded value gives the two bytes back.
pub proof fn lemma_le16_inverse(b0: u8, b1: u8)
    ensures
        le16(u16_of_le(b0, b1)) =~= seq![b0, b1],
{
    let x = u16_of_le(b0, b1);
    assert((((b0 as u16) | ((b1 as u16) << 8)) & 0xff) as u8 == b0) by (bit_vector);
    assert(((((b0 as u16) | ((b1 as u16) << 8)) >> 8) & 0xff) as u8 == b1) by (bit_vector);
}

/// Decoding the little-endian image of a `u32` gives the value back.
pub proof fn lemma_le32_roundtrip(x: u32)
    ensures
        u32_of_le(le32(x)[0], le32(x)[1], le32(x)[2], le32(x)[3]) == x,
{
    assert(((x & 0xff) as u8 as u32) | ((((x >> 8) & 0xff) as u8 as u32) << 8)
        | ((((x >> 16) & 0xff) as u8 as u32) << 16) | ((((x >> 24) & 0xff) as u8 as u32) << 24)
        == x) by (bit_vector);
}

/// Replacing `w.len()` bytes of `s` at position `at` by `w`.
pub open spec fn splice(s: Seq<u8>, at: int, w: Seq<u8>) -> Seq<u8> {
    s.subrange(0, at) + w + s.subrange(at + w.len(), s.len() as int)
}

/// What each byte of a spliced sequence is.
pub proof fn lemma_splice_index(s: Seq<u8>, at: int, w: Seq<u8>, i: int)
    requires
        0 <= at,
        at + w.len() <= s.len(),
        0 <= i < s.len(),
    ensures
        splice(s, at, w).len() == s.len(),
        splice(s, at, w)[i] == if at <= i < at + w.len() {
            w[i - at]
        } else {
            s[i]
        },
{
}

/// Write the little-endian image of a `u16` at byte position `at`.
pub fn write_u16_at(buf: &mut Vec<u8>, at: usize, x: u16)
    requires
        at + 2 <= old(buf).len(),
    ensures
        final(buf)@ =~= splice(old(buf)@, at as int, le16(x)),
        final(buf).len() == old(buf).len(),
{
    buf[at] = (x & 0xff) as u8;
    buf[at + 1] = ((x >> 8) & 0xff) as u8;
}

/// Write the little-endian image of a `u32` at byte position `at`.
pub fn write_u32_at(buf: &mut Vec<u8>, at: usize, x: u32)
    requires
        at + 4 <= old(buf).len(),
    ensures
        final(buf)@ =~= splice(old(buf)@, at as int, le32(x)),
        final(buf).len() == old(buf).len(),
{
    buf[at] = (x & 0xff) as u8;
    buf[at + 1] = ((x >> 8) & 0xff) as u8;
    buf[at + 2] = ((x >> 16) & 0xff) as u8;
    buf[at + 3] = ((x >> 24) & 0xff) as u8;
}

/// Write the little-endian image of a `u64` at byte position `at`.
pub fn write_u64_at(buf: &mut Vec<u8>, at: usize, x: u64)
    requires
        at + 8 <= old(buf).len(),
    ensures
        final(buf)@ =~= splice(old(buf)@, at as int, le64(x)),
        final(buf).len() == old(buf).len(),
{
    buf[at] = (x & 0xff) as u8;
    buf[at + 1] = ((x >> 8) & 0xff) as u8;
    buf[at + 2] = ((x >> 16) & 0xff) as u8;
    buf[at + 3] = ((x >> 24) & 0xff) as u8;
    buf[at + 4] = ((x >> 32) & 0xff) as u8;
    buf[at + 5] = ((x >> 40) & 0xff) as u8;
    buf[at + 6] = ((x >> 48) & 0xff) as u8;
    buf[at + 7] = ((x >> 56) & 0xff) as u8;
}

/// Read the `u16` stored little-endian at byte position `at`.
pub fn read_u16_at(buf: &Vec<u8>, at: usize) -> (r: u16)
    requires
        at + 2 <= buf.len(),
    ensures
        r == u16_of_le(buf@[at as int], buf@[at + 1]),
{
    (buf[at] as u16) | ((buf[at + 1] as u16) << 8)
}

/// Read the `u32` stored little-endian at byte position `at`.
pub fn read_u32_at(buf: &Vec<u8>, at: usize) -> (r: u32)
    requires
        at + 4 <= buf.len(),
    ensures
        r == u32_of_le(buf@[at as int], buf@[at + 1], buf@[at + 2], buf@[at + 3]),
{
    (buf[at] as u32) | ((buf[at + 1] as u32) << 8) | ((buf[at + 2] as u32) << 16)
        | ((buf[at + 3] as u32) << 24)
}

} // verus!
