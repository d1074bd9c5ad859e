//! The binary packet: a length, a padding length, the payload and the padding.
//!
//! On the wire a packet is
//!
//! ```text
//! [packet_length: 4 bytes, network order][padding_length: 1 byte]
//! [payload: packet_length - padding_length - 1 bytes][padding: padding_length bytes]
//! [mac: MAC_LEN bytes]
//! ```
//!
//! No integrity algorithm is in use, so the region reserved for the message
//! authentication code is empty: `MAC_LEN` is zero. The encoder leaves the
//! region blank and the decoder takes it from the stream without looking at
//! it, so packets are neither authenticated on the way out nor checked on the
//! way in.

use vstd::prelude::*;
use crate::bytes::{be_u32, be_u32_bytes, lemma_be_u32_round_trip, u32_to_be};
use crate::result::{SshError, SshErrorKind, SshResult};

verus! {

/// The bytes of a packet that come before its payload.
pub const HEADER_LEN: usize = 5;

/// The least padding that a packet may carry.
pub const MIN_PADDING: u8 = 4;

/// The length to a multiple of which the encoder pads a packet.
pub const BLOCK_SIZE: usize = 8;

/// The length of the region reserved for the message authentication code
/// behind every packet.
pub const MAC_LEN: usize = 0;

/// The two rules that a packet's header must meet.
pub open spec fn header_valid(packet_len: int, padding_len: int) -> bool {
    padding_len >= MIN_PADDING && packet_len > padding_len
}

/// The length of the payload that a valid header announces.
pub open spec fn payload_length(packet_len: int, padding_len: int) -> int {
    packet_len - padding_len - 1
}

/// A run of `n` zero bytes.
pub open spec fn zeros(n: nat) -> Seq<u8> {
    Seq::new(n, |i: int| 0u8)
}

/// The packet that carries `payload` with `padding_len` bytes of zero
/// padding, and the blank region behind it.
pub open spec fn packet_bytes(payload: Seq<u8>, padding_len: u8) -> Seq<u8> {
    be_u32_bytes((1 + payload.len() + padding_len) as u32) + seq![padding_len] + payload + zeros(
        padding_len as nat,
    ) + zeros(MAC_LEN as nat)
}

/// Whether `payload` and `padding_len` can be framed: the padding is long
/// enough and the packet length fits in thirty-two bits.
pub open spec fn encodable(payload: Seq<u8>, padding_len: u8) -> bool {
    padding_len >= MIN_PADDING && 1 + payload.len() + padding_len <= u32::MAX
}

/// What decoding one packet from the front of the stream `s` gives, and how
/// many bytes of the stream it uses up.
///
/// A header whose lengths break the rules is used up, and nothing behind it.
/// A stream that ends before the packet does is left alone, so that the
/// packet can be read once the rest has come. A whole packet gives its
/// payload and is used up with its padding and the region behind it.
pub open spec fn packet_outcome(s: Seq<u8>) -> (Result<Seq<u8>, SshErrorKind>, int) {
    if s.len() < HEADER_LEN {
        (Err(SshErrorKind::UnexpectedEndOfStream), 0)
    } else {
        let packet_len = be_u32(s.take(4));
        let padding_len = s[4] as int;
        if !header_valid(packet_len, padding_len) {
            (Err(SshErrorKind::ProtocolViolation), HEADER_LEN as int)
        } else if s.len() < 4 + packet_len + MAC_LEN {
            (Err(SshErrorKind::UnexpectedEndOfStream), 0)
        } else {
            (
                Ok(s.subrange(HEADER_LEN as int, HEADER_LEN + payload_length(packet_len, padding_len))),
                4 + packet_len + MAC_LEN,
            )
        }
    }
}

/// Decoding an encoded packet gives back the payload and uses up exactly the
/// packet, whatever follows it in the stream.
pub proof fn lemma_packet_round_trip(payload: Seq<u8>, padding_len: u8, rest: Seq<u8>)
    requires
        encodable(payload, padding_len),
    ensures
        packet_outcome(packet_bytes(payload, padding_len) + rest) == (
            Ok::<Seq<u8>, SshErrorKind>(payload),
            packet_bytes(payload, padding_len).len() as int,
        ),
        packet_bytes(payload, padding_len).len() == HEADER_LEN + payload.len() + padding_len
            + MAC_LEN,
{
    let packet_len = (1 + payload.len() + padding_len) as u32;
    let packet = packet_bytes(payload, padding_len);
    let s = packet + rest;
    lemma_be_u32_round_trip(packet_len, be_u32_bytes(packet_len));
    assert(s.take(4) =~= be_u32_bytes(packet_len));
    assert(s[4] == padding_len);
    assert(s.subrange(HEADER_LEN as int, HEADER_LEN + payload.len()) =~= payload);
}

/// A packet with too little padding, or with a length that leaves no room
/// for its padding, is never decoded.
pub proof fn lemma_bad_header_rejected(s: Seq<u8>)
    requires
        s.len() >= HEADER_LEN,
        s[4] < MIN_PADDING || be_u32(s.take(4)) <= s[4],
    ensures
        packet_outcome(s) == (
            Err::<Seq<u8>, SshErrorKind>(SshErrorKind::ProtocolViolation),
            HEADER_LEN as int,
        ),
{
}

/// Checks the two lengths of a header and gives the length of the payload.
pub fn check_header(packet_len: u32, padding_len: u8) -> (r: SshResult<u32>)
    ensures
        match r {
            Ok(n) => header_valid(packet_len as int, padding_len as int) && n == payload_length(
                packet_len as int,
                padding_len as int,
            ),
            Err(e) => !header_valid(packet_len as int, padding_len as int) && e.kind
                == SshErrorKind::ProtocolViolation,
        },
{
    if padding_len < MIN_PADDING {
        return SshError::new(
            SshErrorKind::ProtocolViolation,
            "packet with fewer than four bytes of padding".to_string(),
        );
    }
    if packet_len <= padding_len as u32 {
        return SshError::new(
            SshErrorKind::ProtocolViolation,
            "packet too short for its padding".to_string(),
        );
    }
    Ok(packet_len - padding_len as u32 - 1)
}

/// With `padding_len` bytes of padding, a packet for `payload_len` bytes of
/// payload is a multiple of `BLOCK_SIZE` bytes long.
pub open spec fn aligned(payload_len: int, padding_len: int) -> bool {
    (HEADER_LEN + payload_len + padding_len) % (BLOCK_SIZE as int) == 0
}

/// The padding length that the encoder picks for a payload of `payload_len`
/// bytes.
pub open spec fn padding_for(payload_len: int) -> int {
    let fill = (BLOCK_SIZE - (payload_len + HEADER_LEN) % (BLOCK_SIZE as int)) % (BLOCK_SIZE as int);
    if fill < MIN_PADDING {
        fill + BLOCK_SIZE
    } else {
        fill
    }
}

/// The padding that the encoder picks is the least one, from `MIN_PADDING`
/// on, that makes the packet a multiple of `BLOCK_SIZE` bytes long.
pub proof fn lemma_padding_for(payload_len: int)
    requires
        0 <= payload_len,
    ensures
        MIN_PADDING <= padding_for(payload_len) < MIN_PADDING + BLOCK_SIZE,
        aligned(payload_len, padding_for(payload_len)),
        forall|p: int| MIN_PADDING <= p < padding_for(payload_len) ==> !#[trigger] aligned(payload_len, p),
{
}

/// A packet framed with the padding that the encoder picks is decoded to
/// its payload, whatever follows it in the stream.
pub proof fn lemma_padded_packet_round_trip(payload: Seq<u8>, rest: Seq<u8>)
    requires
        encodable(payload, padding_for(payload.len() as int) as u8),
    ensures
        packet_outcome(packet_bytes(payload, padding_for(payload.len() as int) as u8) + rest).0
            == Ok::<Seq<u8>, SshErrorKind>(payload),
{
    lemma_packet_round_trip(payload, padding_for(payload.len() as int) as u8, rest);
}

/// Picks the padding length for a payload of `payload_len` bytes.
pub fn select_padding(payload_len: usize) -> (padding_len: u8)
    ensures
        padding_len == padding_for(payload_len as int),
        MIN_PADDING <= padding_len < MIN_PADDING + BLOCK_SIZE,
{
    let over: usize = (payload_len % BLOCK_SIZE + HEADER_LEN) % BLOCK_SIZE;
    let fill: usize = (BLOCK_SIZE - over) % BLOCK_SIZE;
    if fill < MIN_PADDING as usize {
        (fill + BLOCK_SIZE) as u8
    } else {
        fill as u8
    }
}

/// Frames `payload` as one packet with `padding_len` bytes of zero padding.
pub fn encode_packet(payload: &[u8], padding_len: u8) -> (r: SshResult<Vec<u8>>)
    ensures
        match r {
            Ok(bytes) => encodable(payload@, padding_len) && bytes@ == packet_bytes(
                payload@,
                padding_len,
            ),
            Err(e) => if padding_len < MIN_PADDING {
                e.kind == SshErrorKind::ProtocolViolation
            } else {
                e.kind == SshErrorKind::UnsupportedOperation && !encodable(payload@, padding_len)
            },
        },
{
    if padding_len < MIN_PADDING {
        return SshError::new(
            SshErrorKind::ProtocolViolation,
            "fewer than four bytes of padding".to_string(),
        );
    }
    let room: usize = (u32::MAX - 1 - padding_len as u32) as usize;
    if payload.len() > room {
        return SshError::new(
            SshErrorKind::UnsupportedOperation,
            "payload too long for one packet".to_string(),
        );
    }
    let packet_len: u32 = 1 + payload.len() as u32 + padding_len as u32;
    let mut out: Vec<u8> = Vec::new();
    let length = u32_to_be(packet_len);
    out.extend_from_slice(length.as_slice());
    out.push(padding_len);
    out.extend_from_slice(payload);
    let ghost head = out@;
    let mut i: u8 = 0;
    while i < padding_len
        invariant
            i <= padding_len,
            out@ == head + zeros(i as nat),
        decreases padding_len - i,
    {
        out.push(0);
        i = i + 1;
        assert(out@ =~= head + zeros(i as nat));
    }
    let ghost padded = out@;
    let mut j: usize = 0;
    while j < MAC_LEN
        invariant
            j <= MAC_LEN,
            out@ == padded + zeros(j as nat),
        decreases MAC_LEN - j,
    {
        out.push(0);
        j = j + 1;
        assert(out@ =~= padded + zeros(j as nat));
    }
    assert(out@ =~= packet_bytes(payload@, padding_len));
    Ok(out)
}

} // verus!
