//! Fixed-width unsigned integers as bytes, most significant byte first
//! (network order) or least significant byte first.
//!
//! Every value is assembled from and taken apart into single bytes by
//! arithmetic on their positional weights, so the result is the same on every
//! host.

use vstd::prelude::*;

verus! {

/// The number that two bytes spell, most significant byte first.
pub open spec fn be_u16(s: Seq<u8>) -> int
    recommends
        s.len() == 2,
{
    s[0] * 0x100 + s[1]
}

/// The number that four bytes spell, most significant byte first.
pub open spec fn be_u32(s: Seq<u8>) -> int
    recommends
        s.len() == 4,
{
    s[0] * 0x100_0000 + s[1] * 0x1_0000 + s[2] * 0x100 + s[3]
}

/// The number that eight bytes spell, most significant byte first.
pub open spec fn be_u64(s: Seq<u8>) -> int
    recommends
        s.len() == 8,
{
    s[0] * 0x100_0000_0000_0000 + s[1] * 0x1_0000_0000_0000 + s[2] * 0x100_0000_0000 + s[3]
        * 0x1_0000_0000 + s[4] * 0x100_0000 + s[5] * 0x1_0000 + s[6] * 0x100 + s[7]
}

/// The two bytes of `v`, most significant byte first.
pub open spec fn be_u16_bytes(v: u16) -> Seq<u8> {
    seq![(v / 0x100) as u8, (v % 0x100) as u8]
}

/// The four bytes of `v`, most significant byte first.
pub open spec fn be_u32_bytes(v: u32) -> Seq<u8> {
    seq![
        (v / 0x100_0000) as u8,
        (v / 0x1_0000 % 0x100) as u8,
        (v / 0x100 % 0x100) as u8,
        (v % 0x100) as u8,
    ]
}

/// The eight bytes of `v`, most significant byte first.
pub open spec fn be_u64_bytes(v: u64) -> Seq<u8> {
    seq![
        (v / 0x100_0000_0000_0000) as u8,
        (v / 0x1_0000_0000_0000 % 0x100) as u8,
        (v / 0x100_0000_0000 % 0x100) as u8,
        (v / 0x1_0000_0000 % 0x100) as u8,
        (v / 0x100_0000 % 0x100) as u8,
        (v / 0x1_0000 % 0x100) as u8,
        (v / 0x100 % 0x100) as u8,
        (v % 0x100) as u8,
    ]
}

/// The number that two bytes spell, least significant byte first.
pub open spec fn le_u16(s: Seq<u8>) -> int
    recommends
        s.len() == 2,
{
    be_u16(s.reverse())
}

/// The number that four bytes spell, least significant byte first.
pub open spec fn le_u32(s: Seq<u8>) -> int
    recommends
        s.len() == 4,
{
    be_u32(s.reverse())
}

/// The number that eight bytes spell, least significant byte first.
pub open spec fn le_u64(s: Seq<u8>) -> int
    recommends
        s.len() == 8,
{
    be_u64(s.reverse())
}

/// The two bytes of `v`, least significant byte first.
pub open spec fn le_u16_bytes(v: u16) -> Seq<u8> {
    be_u16_bytes(v).reverse()
}

/// The four bytes of `v`, least significant byte first.
pub open spec fn le_u32_bytes(v: u32) -> Seq<u8> {
    be_u32_bytes(v).reverse()
}

/// The eight bytes of `v`, least significant byte first.
pub open spec fn le_u64_bytes(v: u64) -> Seq<u8> {
    be_u64_bytes(v).reverse()
}

/// `n` as a sixty-four-bit number, or the largest such number if `n` is
/// larger still.
pub open spec fn saturated(n: nat) -> u64 {
    if n <= u64::MAX {
        n as u64
    } else {
        u64::MAX
    }
}

/// Four bytes always spell a number that fits in thirty-two bits.
pub proof fn lemma_be_u32_bound(s: Seq<u8>)
    requires
        s.len() == 4,
    ensures
        0 <= be_u32(s) <= u32::MAX,
{
}

/// Taking a sixteen-bit number apart and reading the bytes back gives the
/// number, and the other way round.
pub proof fn lemma_be_u16_round_trip(v: u16, s: Seq<u8>)
    requires
        s.len() == 2,
    ensures
        be_u16_bytes(v).len() == 2,
        be_u16(be_u16_bytes(v)) == v,
        be_u16_bytes(be_u16(s) as u16) == s,
{
    assert(be_u16_bytes(be_u16(s) as u16) =~= s);
}

/// Taking a thirty-two-bit number apart and reading the bytes back gives the
/// number, and the other way round.
pub proof fn lemma_be_u32_round_trip(v: u32, s: Seq<u8>)
    requires
        s.len() == 4,
    ensures
        be_u32_bytes(v).len() == 4,
        be_u32(be_u32_bytes(v)) == v,
        be_u32_bytes(be_u32(s) as u32) == s,
{
    assert(((v / 0x100_0000) as u8) * 0x100_0000 + ((v / 0x1_0000 % 0x100) as u8) * 0x1_0000 + ((v
        / 0x100 % 0x100) as u8) * 0x100 + ((v % 0x100) as u8) == v) by (bit_vector);
    let (b0, b1, b2, b3) = (s[0], s[1], s[2], s[3]);
    assert({
        let x: u32 = (b0 * 0x100_0000 + b1 * 0x1_0000 + b2 * 0x100 + b3) as u32;
        &&& (x / 0x100_0000) as u8 == b0
        &&& (x / 0x1_0000 % 0x100) as u8 == b1
        &&& (x / 0x100 % 0x100) as u8 == b2
        &&& (x % 0x100) as u8 == b3
    }) by (bit_vector);
    assert(be_u32_bytes(be_u32(s) as u32) =~= s);
}

/// Taking a sixty-four-bit number apart and reading the bytes back gives the
/// number, and the other way round.
pub proof fn lemma_be_u64_round_trip(v: u64, s: Seq<u8>)
    requires
        s.len() == 8,
    ensures
        be_u64_bytes(v).len() == 8,
        be_u64(be_u64_bytes(v)) == v,
        be_u64_bytes(be_u64(s) as u64) == s,
{
    assert(((v / 0x100_0000_0000_0000) as u8) * 0x100_0000_0000_0000 + ((v / 0x1_0000_0000_0000
        % 0x100) as u8) * 0x1_0000_0000_0000 + ((v / 0x100_0000_0000 % 0x100) as u8)
        * 0x100_0000_0000 + ((v / 0x1_0000_0000 % 0x100) as u8) * 0x1_0000_0000 + ((v / 0x100_0000
        % 0x100) as u8) * 0x100_0000 + ((v / 0x1_0000 % 0x100) as u8) * 0x1_0000 + ((v / 0x100
        % 0x100) as u8) * 0x100 + ((v % 0x100) as u8) == v) by (bit_vector);
    let (b0, b1, b2, b3) = (s[0], s[1], s[2], s[3]);
    let (b4, b5, b6, b7) = (s[4], s[5], s[6], s[7]);
    assert({
        let x: u64 = (b0 * 0x100_0000_0000_0000 + b1 * 0x1_0000_0000_0000 + b2 * 0x100_0000_0000
            + b3 * 0x1_0000_0000 + b4 * 0x100_0000 + b5 * 0x1_0000 + b6 * 0x100 + b7) as u64;
        &&& (x / 0x100_0000_0000_0000) as u8 == b0
        &&& (x / 0x1_0000_0000_0000 % 0x100) as u8 == b1
        &&& (x / 0x100_0000_0000 % 0x100) as u8 == b2
        &&& (x / 0x1_0000_0000 % 0x100) as u8 == b3
        &&& (x / 0x100_0000 % 0x100) as u8 == b4
        &&& (x / 0x1_0000 % 0x100) as u8 == b5
        &&& (x / 0x100 % 0x100) as u8 == b6
        &&& (x % 0x100) as u8 == b7
    }) by (bit_vector);
    assert(be_u64_bytes(be_u64(s) as u64) =~= s);
}

/// Reads a sixteen-bit number from two bytes in network order.
pub fn u16_from_be(b: &[u8]) -> (v: u16)
    requires
        b@.len() == 2,
    ensures
        v == be_u16(b@),
{
    let hi: u16 = b[0] as u16;
    let lo: u16 = b[1] as u16;
    hi * 0x100 + lo
}

/// Reads a thirty-two-bit number from four bytes in network order.
pub fn u32_from_be(b: &[u8]) -> (v: u32)
    requires
        b@.len() == 4,
    ensures
        v == be_u32(b@),
{
    let b0: u32 = b[0] as u32;
    let b1: u32 = b[1] as u32;
    let b2: u32 = b[2] as u32;
    let b3: u32 = b[3] as u32;
    b0 * 0x100_0000 + b1 * 0x1_0000 + b2 * 0x100 + b3
}

/// Reads a sixty-four-bit number from eight bytes in network order.
pub fn u64_from_be(b: &[u8]) -> (v: u64)
    requires
        b@.len() == 8,
    ensures
        v == be_u64(b@),
{
    let b0: u64 = b[0] as u64;
    let b1: u64 = b[1] as u64;
    let b2: u64 = b[2] as u64;
    let b3: u64 = b[3] as u64;
    let b4: u64 = b[4] as u64;
    let b5: u64 = b[5] as u64;
    let b6: u64 = b[6] as u64;
    let b7: u64 = b[7] as u64;
    b0 * 0x100_0000_0000_0000 + b1 * 0x1_0000_0000_0000 + b2 * 0x100_0000_0000 + b3
        * 0x1_0000_0000 + b4 * 0x100_0000 + b5 * 0x1_0000 + b6 * 0x100 + b7
}

/// Reads a sixteen-bit number from two bytes, least significant first.
pub fn u16_from_le(b: &[u8]) -> (v: u16)
    requires
        b@.len() == 2,
    ensures
        v == le_u16(b@),
{
    let lo: u16 = b[0] as u16;
    let hi: u16 = b[1] as u16;
    hi * 0x100 + lo
}

/// Reads a thirty-two-bit number from four bytes, least significant first.
pub fn u32_from_le(b: &[u8]) -> (v: u32)
    requires
        b@.len() == 4,
    ensures
        v == le_u32(b@),
{
    let b0: u32 = b[3] as u32;
    let b1: u32 = b[2] as u32;
    let b2: u32 = b[1] as u32;
    let b3: u32 = b[0] as u32;
    b0 * 0x100_0000 + b1 * 0x1_0000 + b2 * 0x100 + b3
}

/// Reads a sixty-four-bit number from eight bytes, least significant first.
pub fn u64_from_le(b: &[u8]) -> (v: u64)
    requires
        b@.len() == 8,
    ensures
        v == le_u64(b@),
{
    let b0: u64 = b[7] as u64;
    let b1: u64 = b[6] as u64;
    let b2: u64 = b[5] as u64;
    let b3: u64 = b[4] as u64;
    let b4: u64 = b[3] as u64;
    let b5: u64 = b[2] as u64;
    let b6: u64 = b[1] as u64;
    let b7: u64 = b[0] as u64;
    b0 * 0x100_0000_0000_0000 + b1 * 0x1_0000_0000_0000 + b2 * 0x100_0000_0000 + b3
        * 0x1_0000_0000 + b4 * 0x100_0000 + b5 * 0x1_0000 + b6 * 0x100 + b7
}

/// The two bytes of `v` in network order.
pub fn u16_to_be(v: u16) -> (b: [u8; 2])
    ensures
        b@ == be_u16_bytes(v),
{
    let b: [u8; 2] = [(v / 0x100) as u8, (v % 0x100) as u8];
    assert(b@ =~= be_u16_bytes(v));
    b
}

/// The four bytes of `v` in network order.
pub fn u32_to_be(v: u32) -> (b: [u8; 4])
    ensures
        b@ == be_u32_bytes(v),
{
    let b: [u8; 4] = [
        (v / 0x100_0000) as u8,
        (v / 0x1_0000 % 0x100) as u8,
        (v / 0x100 % 0x100) as u8,
        (v % 0x100) as u8,
    ];
    assert(b@ =~= be_u32_bytes(v));
    b
}

/// The eight bytes of `v` in network order.
pub fn u64_to_be(v: u64) -> (b: [u8; 8])
    ensures
        b@ == be_u64_bytes(v),
{
    let b: [u8; 8] = [
        (v / 0x100_0000_0000_0000) as u8,
        (v / 0x1_0000_0000_0000 % 0x100) as u8,
        (v / 0x100_0000_0000 % 0x100) as u8,
        (v / 0x1_0000_0000 % 0x100) as u8,
        (v / 0x100_0000 % 0x100) as u8,
        (v / 0x1_0000 % 0x100) as u8,
        (v / 0x100 % 0x100) as u8,
        (v % 0x100) as u8,
    ];
    assert(b@ =~= be_u64_bytes(v));
    b
}

/// The two bytes of `v`, least significant first.
pub fn u16_to_le(v: u16) -> (b: [u8; 2])
    ensures
        b@ == le_u16_bytes(v),
{
    let b: [u8; 2] = [(v % 0x100) as u8, (v / 0x100) as u8];
    assert(b@ =~= le_u16_bytes(v));
    b
}

/// The four bytes of `v`, least significant first.
pub fn u32_to_le(v: u32) -> (b: [u8; 4])
    ensures
        b@ == le_u32_bytes(v),
{
    let b: [u8; 4] = [
        (v % 0x100) as u8,
        (v / 0x100 % 0x100) as u8,
        (v / 0x1_0000 % 0x100) as u8,
        (v / 0x100_0000) as u8,
    ];
    assert(b@ =~= le_u32_bytes(v));
    b
}

/// The eight bytes of `v`, least significant first.
pub fn u64_to_le(v: u64) -> (b: [u8; 8])
    ensures
        b@ == le_u64_bytes(v),
{
    let b: [u8; 8] = [
        (v % 0x100) as u8,
        (v / 0x100 % 0x100) as u8,
        (v / 0x1_0000 % 0x100) as u8,
        (v / 0x100_0000 % 0x100) as u8,
        (v / 0x1_0000_0000 % 0x100) as u8,
        (v / 0x100_0000_0000 % 0x100) as u8,
        (v / 0x1_0000_0000_0000 % 0x100) as u8,
        (v / 0x100_0000_0000_0000) as u8,
    ];
    assert(b@ =~= le_u64_bytes(v));
    b
}

} // verus!
