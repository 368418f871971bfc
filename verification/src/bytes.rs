//! Fixed-width integers as byte sequences: big-endian for the frame
//! protocol, little-endian for BMP headers.
use vstd::prelude::*;

verus! {

/// The eight bytes of `n`, most significant first.
pub open spec fn be64_bytes(n: u64) -> Seq<u8> {
    seq![
        (n >> 56u64) as u8, (n >> 48u64) as u8, (n >> 40u64) as u8, (n >> 32u64) as u8,
        (n >> 24u64) as u8, (n >> 16u64) as u8, (n >> 8u64) as u8, n as u8,
    ]
}

/// The number whose big-endian encoding is the first eight bytes of `s`.
pub open spec fn be64_value(s: Seq<u8>) -> u64 {
    (s[0] as u64) << 56u64 | (s[1] as u64) << 48u64 | (s[2] as u64) << 40u64
        | (s[3] as u64) << 32u64 | (s[4] as u64) << 24u64 | (s[5] as u64) << 16u64
        | (s[6] as u64) << 8u64 | (s[7] as u64)
}

/// The two bytes of `n`, most significant first.
pub open spec fn be16_bytes(n: u16) -> Seq<u8> {
    seq![(n >> 8u16) as u8, n as u8]
}

/// The number whose big-endian encoding is the first two bytes of `s`.
pub open spec fn be16_value(s: Seq<u8>) -> u16 {
    (s[0] as u16) << 8u16 | (s[1] as u16)
}

/// The number whose little-endian encoding is the two bytes of `s` at `at`.
pub open spec fn le16_at(s: Seq<u8>, at: int) -> u16 {
    (s[at] as u16) | (s[at + 1] as u16) << 8u16
}

/// The number whose little-endian encoding is the four bytes of `s` at `at`.
pub open spec fn le32_at(s: Seq<u8>, at: int) -> u32 {
    (s[at] as u32) | (s[at + 1] as u32) << 8u32 | (s[at + 2] as u32) << 16u32
        | (s[at + 3] as u32) << 24u32
}

/// The two bytes of `n`, least significant first.
pub open spec fn le16_bytes(n: u16) -> Seq<u8> {
    seq![n as u8, (n >> 8u16) as u8]
}

/// The four bytes of `n`, least significant first.
pub open spec fn le32_bytes(n: u32) -> Seq<u8> {
    seq![n as u8, (n >> 8u32) as u8, (n >> 16u32) as u8, (n >> 24u32) as u8]
}

/// The four bytes of `s` at `at`, least significant first, as a number.
pub proof fn lemma_le32_value(s: Seq<u8>, at: int)
    requires
        0 <= at,
        at + 4 <= s.len(),
    ensures
        le32_at(s, at) as int == s[at] + 256 * s[at + 1] + 65536 * s[at + 2] + 16777216 * s[at + 3],
{
    let b0 = s[at];
    let b1 = s[at + 1];
    let b2 = s[at + 2];
    let b3 = s[at + 3];
    assert((b0 as u32) | (b1 as u32) << 8u32 | (b2 as u32) << 16u32 | (b3 as u32) << 24u32 == b0
        + 256 * b1 + 65536 * b2 + 16777216 * b3) by (bit_vector);
}

/// The two bytes of `s` at `at`, least significant first, as a number.
pub proof fn lemma_le16_value(s: Seq<u8>, at: int)
    requires
        0 <= at,
        at + 2 <= s.len(),
    ensures
        le16_at(s, at) as int == s[at] + 256 * s[at + 1],
{
    let b0 = s[at];
    let b1 = s[at + 1];
    assert((b0 as u16) | (b1 as u16) << 8u16 == b0 + 256 * b1) by (bit_vector);
}

/// Decoding the big-endian bytes of a number gives the number back.
pub proof fn lemma_be64_roundtrip(n: u64)
    ensures
        be64_bytes(n).len() == 8,
        be64_value(be64_bytes(n)) == n,
{
    let s = be64_bytes(n);
    let b0 = s[0];
    let b1 = s[1];
    let b2 = s[2];
    let b3 = s[3];
    let b4 = s[4];
    let b5 = s[5];
    let b6 = s[6];
    let b7 = s[7];
    assert(b0 == (n >> 56u64) as u8 && b1 == (n >> 48u64) as u8 && b2 == (n >> 40u64) as u8
        && b3 == (n >> 32u64) as u8 && b4 == (n >> 24u64) as u8 && b5 == (n >> 16u64) as u8
        && b6 == (n >> 8u64) as u8 && b7 == n as u8 ==> (b0 as u64) << 56u64 | (b1 as u64) << 48u64
        | (b2 as u64) << 40u64 | (b3 as u64) << 32u64 | (b4 as u64) << 24u64 | (b5 as u64)
        << 16u64 | (b6 as u64) << 8u64 | (b7 as u64) == n) by (bit_vector);
}

/// Encoding the number held by eight bytes gives the same bytes back.
pub proof fn lemma_be64_bytes_of_value(s: Seq<u8>)
    requires
        s.len() == 8,
    ensures
        be64_bytes(be64_value(s)) == s,
{
    let b0 = s[0];
    let b1 = s[1];
    let b2 = s[2];
    let b3 = s[3];
    let b4 = s[4];
    let b5 = s[5];
    let b6 = s[6];
    let b7 = s[7];
    let n = be64_value(s);
    assert(n == (b0 as u64) << 56u64 | (b1 as u64) << 48u64 | (b2 as u64) << 40u64 | (b3 as u64)
        << 32u64 | (b4 as u64) << 24u64 | (b5 as u64) << 16u64 | (b6 as u64) << 8u64 | (b7 as u64)
        ==> b0 == (n >> 56u64) as u8 && b1 == (n >> 48u64) as u8 && b2 == (n >> 40u64) as u8 && b3
        == (n >> 32u64) as u8 && b4 == (n >> 24u64) as u8 && b5 == (n >> 16u64) as u8 && b6 == (n
        >> 8u64) as u8 && b7 == n as u8) by (bit_vector);
    assert(be64_bytes(n) =~= s);
}

/// Decoding the big-endian bytes of a 16-bit number gives the number back.
pub proof fn lemma_be16_roundtrip(n: u16)
    ensures
        be16_bytes(n).len() == 2,
        be16_value(be16_bytes(n)) == n,
{
    let s = be16_bytes(n);
    let b0 = s[0];
    let b1 = s[1];
    assert(b0 == (n >> 8u16) as u8 && b1 == n as u8 ==> (b0 as u16) << 8u16 | (b1 as u16) == n)
        by (bit_vector);
}

/// Appends the big-endian bytes of `n`.
pub fn push_be64(out: &mut Vec<u8>, n: u64)
    ensures
        final(out)@ == old(out)@ + be64_bytes(n),
{
    out.push((n >> 56u64) as u8);
    out.push((n >> 48u64) as u8);
    out.push((n >> 40u64) as u8);
    out.push((n >> 32u64) as u8);
    out.push((n >> 24u64) as u8);
    out.push((n >> 16u64) as u8);
    out.push((n >> 8u64) as u8);
    out.push(n as u8);
    assert(out@ =~= old(out)@ + be64_bytes(n));
}

/// Appends the big-endian bytes of a 16-bit number.
pub fn push_be16(out: &mut Vec<u8>, n: u16)
    ensures
        final(out)@ == old(out)@ + be16_bytes(n),
{
    out.push((n >> 8u16) as u8);
    out.push(n as u8);
    assert(out@ =~= old(out)@ + be16_bytes(n));
}

/// Appends the little-endian bytes of a 16-bit number.
pub fn push_le16(out: &mut Vec<u8>, n: u16)
    ensures
        final(out)@ == old(out)@ + le16_bytes(n),
{
    out.push(n as u8);
    out.push((n >> 8u16) as u8);
    assert(out@ =~= old(out)@ + le16_bytes(n));
}

/// Appends the little-endian bytes of a 32-bit number.
pub fn push_le32(out: &mut Vec<u8>, n: u32)
    ensures
        final(out)@ == old(out)@ + le32_bytes(n),
{
    out.push(n as u8);
    out.push((n >> 8u32) as u8);
    out.push((n >> 16u32) as u8);
    out.push((n >> 24u32) as u8);
    assert(out@ =~= old(out)@ + le32_bytes(n));
}

/// Reads the big-endian number held by the first eight bytes of `s`.
pub fn read_be64(s: &[u8]) -> (n: u64)
    requires
        s@.len() >= 8,
    ensures
        n == be64_value(s@),
{
    (s[0] as u64) << 56u64 | (s[1] as u64) << 48u64 | (s[2] as u64) << 40u64 | (s[3] as u64)
        << 32u64 | (s[4] as u64) << 24u64 | (s[5] as u64) << 16u64 | (s[6] as u64) << 8u64
        | (s[7] as u64)
}

/// Reads the big-endian number held by the first two bytes of `s`.
pub fn read_be16(s: &[u8]) -> (n: u16)
    requires
        s@.len() >= 2,
    ensures
        n == be16_value(s@),
{
    (s[0] as u16) << 8u16 | (s[1] as u16)
}

/// Reads the little-endian 16-bit number at `at`.
pub fn read_le16(s: &[u8], at: usize) -> (n: u16)
    requires
        at + 2 <= s@.len(),
    ensures
        n == le16_at(s@, at as int),
{
    (s[at] as u16) | (s[at + 1] as u16) << 8u16
}

/// Reads the little-endian 32-bit number at `at`.
pub fn read_le32(s: &[u8], at: usize) -> (n: u32)
    requires
        at + 4 <= s@.len(),
    ensures
        n == le32_at(s@, at as int),
{
    (s[at] as u32) | (s[at + 1] as u32) << 8u32 | (s[at + 2] as u32) << 16u32 | (s[at + 3] as u32)
        << 24u32
}

/// Decoding the little-endian bytes of a 32-bit number gives the number back.
pub proof fn lemma_le32_roundtrip(n: u32)
    ensures
        le32_bytes(n).len() == 4,
        le32_at(le32_bytes(n), 0) == n,
{
    let s = le32_bytes(n);
    let b0 = s[0];
    let b1 = s[1];
    let b2 = s[2];
    let b3 = s[3];
    assert(b0 == n as u8 && b1 == (n >> 8u32) as u8 && b2 == (n >> 16u32) as u8 && b3 == (n
        >> 24u32) as u8 ==> (b0 as u32) | (b1 as u32) << 8u32 | (b2 as u32) << 16u32 | (b3 as u32)
        << 24u32 == n) by (bit_vector);
}

/// Decoding the little-endian bytes of a 16-bit number gives the number back.
pub proof fn lemma_le16_roundtrip(n: u16)
    ensures
        le16_bytes(n).len() == 2,
        le16_at(le16_bytes(n), 0) == n,
{
    let s = le16_bytes(n);
    let b0 = s[0];
    let b1 = s[1];
    assert(b0 == n as u8 && b1 == (n >> 8u16) as u8 ==> (b0 as u16) | (b1 as u16) << 8u16 == n)
        by (bit_vector);
}

} // verus!
