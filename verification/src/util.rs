//! Byte sources and byte sinks, and typed reads and writes on top of them.
//!
//! A source is described by the bytes it has yet to deliver, a sink by the
//! bytes it has accepted so far. Everything else in the crate is stated over
//! these two sequences.

use vstd::prelude::*;
use vstd::slice::{slice_subrange, slice_to_vec};
use crate::bytes::{
    be_u16, be_u16_bytes, be_u32, be_u32_bytes, be_u64, be_u64_bytes, le_u16, le_u16_bytes, le_u32,
    le_u32_bytes, le_u64, le_u64_bytes, u16_from_be, u16_from_le, u16_to_be, u16_to_le,
    u32_from_be, u32_from_le, u32_to_be, u32_to_le, u64_from_be, u64_from_le, u64_to_be,
    u64_to_le,
};
use crate::result::{SshError, SshErrorKind, SshResult};

verus! {

/// `t` is what is left of `s` after some bytes were taken from its front.
pub open spec fn is_tail_of(t: Seq<u8>, s: Seq<u8>) -> bool {
    t.len() <= s.len() && t == s.skip(s.len() - t.len())
}

/// What is left of what is left of `s` is left of `s`.
pub proof fn lemma_tail_of_tail(a: Seq<u8>, b: Seq<u8>, c: Seq<u8>)
    requires
        is_tail_of(a, b),
        is_tail_of(b, c),
    ensures
        is_tail_of(a, c),
{
    assert(a =~= c.skip(c.len() - a.len()));
}

/// How a read of `len` bytes may fail: the source reported an error, which a
/// source that never fails does not, or it ended before `len` bytes had come,
/// in which case it is now exhausted. Either way the source has only moved
/// forward.
pub open spec fn read_failed(
    before: Seq<u8>,
    after: Seq<u8>,
    infallible: bool,
    len: int,
    kind: SshErrorKind,
) -> bool {
    &&& is_tail_of(after, before)
    &&& {
        ||| kind == SshErrorKind::IoFailure && !infallible
        ||| kind == SshErrorKind::UnexpectedEndOfStream && before.len() < len && after.len() == 0
    }
}

/// How a write of `bytes` may fail: only by an error of the sink, which a sink
/// that never fails does not report, and after it has accepted some of the
/// bytes from the front, in order.
pub open spec fn write_failed(
    before: Seq<u8>,
    after: Seq<u8>,
    bytes: Seq<u8>,
    infallible: bool,
    kind: SshErrorKind,
) -> bool {
    &&& kind == SshErrorKind::IoFailure
    &&& !infallible
    &&& before.len() <= after.len() <= before.len() + bytes.len()
    &&& after == before + bytes.take(after.len() - before.len())
}

/// A blocking source of bytes, with reads of exact lengths and of integers.
pub trait ReadExt: Sized {
    /// The bytes that the source has yet to deliver, in order.
    spec fn remaining(&self) -> Seq<u8>;

    /// Whether reads from this source never report an error.
    spec fn infallible(&self) -> bool;

    /// Takes at most `max` bytes from the front of the source. It may take
    /// fewer than are there, but takes none only when `max` is zero or the
    /// source is exhausted. A read that fails takes nothing.
    fn read_chunk(&mut self, max: usize) -> (r: SshResult<Vec<u8>>)
        ensures
            old(self).infallible() ==> r is Ok && final(self).infallible(),
            match r {
                Ok(chunk) => {
                    &&& chunk@.len() <= max
                    &&& chunk@.len() <= old(self).remaining().len()
                    &&& chunk@ == old(self).remaining().take(chunk@.len() as int)
                    &&& final(self).remaining() == old(self).remaining().skip(chunk@.len() as int)
                    &&& chunk@.len() == 0 ==> max == 0 || old(self).remaining().len() == 0
                },
                Err(e) => {
                    &&& e.kind == SshErrorKind::IoFailure
                    &&& final(self).remaining() == old(self).remaining()
                },
            },
    ;

    /// Reads exactly `len` bytes, asking the source as often as it takes.
    fn read_exact_to_vec(&mut self, len: usize) -> (r: SshResult<Vec<u8>>)
        ensures
            old(self).infallible() ==> final(self).infallible(),
            match r {
                Ok(bytes) => {
                    &&& len <= old(self).remaining().len()
                    &&& bytes@ == old(self).remaining().take(len as int)
                    &&& final(self).remaining() == old(self).remaining().skip(len as int)
                },
                Err(e) => read_failed(
                    old(self).remaining(),
                    final(self).remaining(),
                    old(self).infallible(),
                    len as int,
                    e.kind,
                ),
            },
    {
        let mut out: Vec<u8> = Vec::new();
        while out.len() < len
            invariant
                out@.len() <= len,
                out@.len() <= old(self).remaining().len(),
                out@ == old(self).remaining().take(out@.len() as int),
                self.remaining() == old(self).remaining().skip(out@.len() as int),
                old(self).infallible() ==> self.infallible(),
            decreases len - out@.len(),
        {
            let ghost before = self.remaining();
            let chunk = self.read_chunk(len - out.len())?;
            if chunk.len() == 0 {
                assert(self.remaining() =~= before);
                return SshError::new(
                    SshErrorKind::UnexpectedEndOfStream,
                    "the byte source ended inside a value".to_string(),
                );
            }
            out.extend_from_slice(chunk.as_slice());
            assert(out@ == old(self).remaining().take(out@.len() as int));
        }
        Ok(out)
    }

    /// Reads one byte.
    fn read_u8(&mut self) -> (r: SshResult<u8>)
        ensures
            old(self).infallible() ==> final(self).infallible(),
            match r {
                Ok(v) => {
                    &&& 1 <= old(self).remaining().len()
                    &&& v == old(self).remaining()[0]
                    &&& final(self).remaining() == old(self).remaining().skip(1)
                },
                Err(e) => read_failed(
                    old(self).remaining(),
                    final(self).remaining(),
                    old(self).infallible(),
                    1,
                    e.kind,
                ),
            },
    {
        let bytes = self.read_exact_to_vec(1)?;
        Ok(bytes[0])
    }

    /// Reads a sixteen-bit number in network order.
    fn read_be_u16(&mut self) -> (r: SshResult<u16>)
        ensures
            old(self).infallible() ==> final(self).infallible(),
            match r {
                Ok(v) => {
                    &&& 2 <= old(self).remaining().len()
                    &&& v == be_u16(old(self).remaining().take(2))
                    &&& final(self).remaining() == old(self).remaining().skip(2)
                },
                Err(e) => read_failed(
                    old(self).remaining(),
                    final(self).remaining(),
                    old(self).infallible(),
                    2,
                    e.kind,
                ),
            },
    {
        let bytes = self.read_exact_to_vec(2)?;
        Ok(u16_from_be(bytes.as_slice()))
    }

    /// Reads a sixteen-bit number, least significant byte first.
    fn read_le_u16(&mut self) -> (r: SshResult<u16>)
        ensures
            old(self).infallible() ==> final(self).infallible(),
            match r {
                Ok(v) => {
                    &&& 2 <= old(self).remaining().len()
                    &&& v == le_u16(old(self).remaining().take(2))
                    &&& final(self).remaining() == old(self).remaining().skip(2)
                },
                Err(e) => read_failed(
                    old(self).remaining(),
                    final(self).remaining(),
                    old(self).infallible(),
                    2,
                    e.kind,
                ),
            },
    {
        let bytes = self.read_exact_to_vec(2)?;
        Ok(u16_from_le(bytes.as_slice()))
    }

    /// Reads a thirty-two-bit number in network order.
    fn read_be_u32(&mut self) -> (r: SshResult<u32>)
        ensures
            old(self).infallible() ==> final(self).infallible(),
            match r {
                Ok(v) => {
                    &&& 4 <= old(self).remaining().len()
                    &&& v == be_u32(old(self).remaining().take(4))
                    &&& final(self).remaining() == old(self).remaining().skip(4)
                },
                Err(e) => read_failed(
                    old(self).remaining(),
                    final(self).remaining(),
                    old(self).infallible(),
                    4,
                    e.kind,
                ),
            },
    {
        let bytes = self.read_exact_to_vec(4)?;
        Ok(u32_from_be(bytes.as_slice()))
    }

    /// Reads a thirty-two-bit number, least significant byte first.
    fn read_le_u32(&mut self) -> (r: SshResult<u32>)
        ensures
            old(self).infallible() ==> final(self).infallible(),
            match r {
                Ok(v) => {
                    &&& 4 <= old(self).remaining().len()
                    &&& v == le_u32(old(self).remaining().take(4))
                    &&& final(self).remaining() == old(self).remaining().skip(4)
                },
                Err(e) => read_failed(
                    old(self).remaining(),
                    final(self).remaining(),
                    old(self).infallible(),
                    4,
                    e.kind,
                ),
            },
    {
        let bytes = self.read_exact_to_vec(4)?;
        Ok(u32_from_le(bytes.as_slice()))
    }

    /// Reads a sixty-four-bit number in network order.
    fn read_be_u64(&mut self) -> (r: SshResult<u64>)
        ensures
            old(self).infallible() ==> final(self).infallible(),
            match r {
                Ok(v) => {
                    &&& 8 <= old(self).remaining().len()
                    &&& v == be_u64(old(self).remaining().take(8))
                    &&& final(self).remaining() == old(self).remaining().skip(8)
                },
                Err(e) => read_failed(
                    old(self).remaining(),
                    final(self).remaining(),
                    old(self).infallible(),
                    8,
                    e.kind,
                ),
            },
    {
        let bytes = self.read_exact_to_vec(8)?;
        Ok(u64_from_be(bytes.as_slice()))
    }

    /// Reads a sixty-four-bit number, least significant byte first.
    fn read_le_u64(&mut self) -> (r: SshResult<u64>)
        ensures
            old(self).infallible() ==> final(self).infallible(),
            match r {
                Ok(v) => {
                    &&& 8 <= old(self).remaining().len()
                    &&& v == le_u64(old(self).remaining().take(8))
                    &&& final(self).remaining() == old(self).remaining().skip(8)
                },
                Err(e) => read_failed(
                    old(self).remaining(),
                    final(self).remaining(),
                    old(self).infallible(),
                    8,
                    e.kind,
                ),
            },
    {
        let bytes = self.read_exact_to_vec(8)?;
        Ok(u64_from_le(bytes.as_slice()))
    }
}

/// A blocking sink of bytes, with writes of integers.
pub trait WriteExt: Sized {
    /// The bytes that the sink has accepted so far, in order.
    spec fn written(&self) -> Seq<u8>;

    /// Whether writes to this sink never report an error.
    spec fn infallible(&self) -> bool;

    /// Hands all of `bytes` to the sink, or fails.
    fn write_all(&mut self, bytes: &[u8]) -> (r: SshResult<()>)
        ensures
            old(self).infallible() ==> r is Ok && final(self).infallible(),
            match r {
                Ok(_) => final(self).written() == old(self).written() + bytes@,
                Err(e) => write_failed(
                    old(self).written(),
                    final(self).written(),
                    bytes@,
                    old(self).infallible(),
                    e.kind,
                ),
            },
    ;

    /// Writes one byte.
    fn write_u8(&mut self, value: u8) -> (r: SshResult<()>)
        ensures
            old(self).infallible() ==> r is Ok && final(self).infallible(),
            match r {
                Ok(_) => final(self).written() == old(self).written() + seq![value],
                Err(e) => write_failed(
                    old(self).written(),
                    final(self).written(),
                    seq![value],
                    old(self).infallible(),
                    e.kind,
                ),
            },
    {
        let bytes: [u8; 1] = [value];
        assert(bytes@ =~= seq![value]);
        self.write_all(bytes.as_slice())
    }

    /// Writes a sixteen-bit number in network order.
    fn write_be_u16(&mut self, value: u16) -> (r: SshResult<()>)
        ensures
            old(self).infallible() ==> r is Ok && final(self).infallible(),
            match r {
                Ok(_) => final(self).written() == old(self).written() + be_u16_bytes(value),
                Err(e) => write_failed(
                    old(self).written(),
                    final(self).written(),
                    be_u16_bytes(value),
                    old(self).infallible(),
                    e.kind,
                ),
            },
    {
        let bytes = u16_to_be(value);
        self.write_all(bytes.as_slice())
    }

    /// Writes a sixteen-bit number, least significant byte first.
    fn write_le_u16(&mut self, value: u16) -> (r: SshResult<()>)
        ensures
            old(self).infallible() ==> r is Ok && final(self).infallible(),
            match r {
                Ok(_) => final(self).written() == old(self).written() + le_u16_bytes(value),
                Err(e) => write_failed(
                    old(self).written(),
                    final(self).written(),
                    le_u16_bytes(value),
                    old(self).infallible(),
                    e.kind,
                ),
            },
    {
        let bytes = u16_to_le(value);
        self.write_all(bytes.as_slice())
    }

    /// Writes a thirty-two-bit number in network order.
    fn write_be_u32(&mut self, value: u32) -> (r: SshResult<()>)
        ensures
            old(self).infallible() ==> r is Ok && final(self).infallible(),
            match r {
                Ok(_) => final(self).written() == old(self).written() + be_u32_bytes(value),
                Err(e) => write_failed(
                    old(self).written(),
                    final(self).written(),
                    be_u32_bytes(value),
                    old(self).infallible(),
                    e.kind,
                ),
            },
    {
        let bytes = u32_to_be(value);
        self.write_all(bytes.as_slice())
    }

    /// Writes a thirty-two-bit number, least significant byte first.
    fn write_le_u32(&mut self, value: u32) -> (r: SshResult<()>)
        ensures
            old(self).infallible() ==> r is Ok && final(self).infallible(),
            match r {
                Ok(_) => final(self).written() == old(self).written() + le_u32_bytes(value),
                Err(e) => write_failed(
                    old(self).written(),
                    final(self).written(),
                    le_u32_bytes(value),
                    old(self).infallible(),
                    e.kind,
                ),
            },
    {
        let bytes = u32_to_le(value);
        self.write_all(bytes.as_slice())
    }

    /// Writes a sixty-four-bit number in network order.
    fn write_be_u64(&mut self, value: u64) -> (r: SshResult<()>)
        ensures
            old(self).infallible() ==> r is Ok && final(self).infallible(),
            match r {
                Ok(_) => final(self).written() == old(self).written() + be_u64_bytes(value),
                Err(e) => write_failed(
                    old(self).written(),
                    final(self).written(),
                    be_u64_bytes(value),
                    old(self).infallible(),
                    e.kind,
                ),
            },
    {
        let bytes = u64_to_be(value);
        self.write_all(bytes.as_slice())
    }

    /// Writes a sixty-four-bit number, least significant byte first.
    fn write_le_u64(&mut self, value: u64) -> (r: SshResult<()>)
        ensures
            old(self).infallible() ==> r is Ok && final(self).infallible(),
            match r {
                Ok(_) => final(self).written() == old(self).written() + le_u64_bytes(value),
                Err(e) => write_failed(
                    old(self).written(),
                    final(self).written(),
                    le_u64_bytes(value),
                    old(self).infallible(),
                    e.kind,
                ),
            },
    {
        let bytes = u64_to_le(value);
        self.write_all(bytes.as_slice())
    }
}

/// The length of the piece that a source in memory delivers when `max` bytes
/// are asked of it, `available` are there, and its pieces are bounded by
/// `chunk_len`, where zero sets no bound.
pub open spec fn piece_len(available: nat, max: nat, chunk_len: nat) -> nat {
    let wanted = if max < available {
        max
    } else {
        available
    };
    if chunk_len > 0 && wanted > chunk_len {
        chunk_len
    } else {
        wanted
    }
}

/// A byte source that delivers bytes held in memory, optionally in pieces of
/// bounded length. More bytes can be put behind those it holds. It can be
/// made to fail once it has delivered a given number of bytes.
pub struct MemorySource {
    data: Vec<u8>,
    pos: usize,
    chunk_len: usize,
    /// How many more bytes are delivered before every read fails, if any
    /// read is to fail.
    healthy: Option<usize>,
}

impl MemorySource {
    /// The bound on the length of a piece, where zero sets no bound.
    pub closed spec fn chunk_len(&self) -> nat {
        self.chunk_len as nat
    }

    /// A source that delivers `data`, as many bytes at a time as are asked for.
    pub fn new(data: Vec<u8>) -> (source: MemorySource)
        ensures
            source.remaining() == data@,
            source.chunk_len() == 0,
            source.infallible(),
    {
        MemorySource { data, pos: 0, chunk_len: 0, healthy: None }
    }

    /// A source that delivers `data` in pieces of at most `chunk_len` bytes.
    /// A `chunk_len` of zero sets no bound.
    pub fn with_chunk_len(data: Vec<u8>, chunk_len: usize) -> (source: MemorySource)
        ensures
            source.remaining() == data@,
            source.chunk_len() == chunk_len,
            source.infallible(),
    {
        MemorySource { data, pos: 0, chunk_len, healthy: None }
    }

    /// A source that holds `data` but delivers no more than its first
    /// `healthy` bytes: every read after those fails.
    pub fn failing_after(data: Vec<u8>, healthy: usize) -> (source: MemorySource)
        ensures
            source.remaining() == data@,
            source.chunk_len() == 0,
            !source.infallible(),
    {
        MemorySource { data, pos: 0, chunk_len: 0, healthy: Some(healthy) }
    }

    /// Puts `bytes` behind what the source has yet to deliver.
    pub fn feed(&mut self, bytes: &[u8])
        ensures
            final(self).remaining() == old(self).remaining() + bytes@,
            final(self).chunk_len() == old(self).chunk_len(),
            final(self).infallible() == old(self).infallible(),
    {
        let ghost before = self.remaining();
        if self.pos >= self.data.len() {
            self.data.clear();
        } else if self.pos > 0 {
            let mut rest = self.data.split_off(self.pos);
            std::mem::swap(&mut self.data, &mut rest);
        }
        self.pos = 0;
        assert(self.remaining() =~= before);
        self.data.extend_from_slice(bytes);
        assert(self.remaining() =~= before + bytes@);
    }
}

impl ReadExt for MemorySource {
    closed spec fn remaining(&self) -> Seq<u8> {
        if self.pos <= self.data@.len() {
            self.data@.skip(self.pos as int)
        } else {
            Seq::empty()
        }
    }

    closed spec fn infallible(&self) -> bool {
        self.healthy is None
    }

    /// From a source that never fails, the piece is as long as `piece_len`
    /// says.
    fn read_chunk(&mut self, max: usize) -> (r: SshResult<Vec<u8>>)
        ensures
            final(self).chunk_len() == old(self).chunk_len(),
            final(self).infallible() == old(self).infallible(),
            old(self).infallible() ==> (r matches Ok(chunk) && chunk@.len() == piece_len(
                old(self).remaining().len(),
                max as nat,
                old(self).chunk_len(),
            )),
    {
        let len: usize = self.data.len();
        let available: usize = if self.pos <= len {
            len - self.pos
        } else {
            0
        };
        let mut n: usize = if max < available {
            max
        } else {
            available
        };
        if self.chunk_len > 0 && n > self.chunk_len {
            n = self.chunk_len;
        }
        if let Some(healthy) = self.healthy {
            if healthy == 0 && max > 0 {
                return SshError::new(
                    SshErrorKind::IoFailure,
                    "the byte source failed".to_string(),
                );
            }
            if n > healthy {
                n = healthy;
            }
            self.healthy = Some(healthy - n);
        }
        if n == 0 {
            let chunk: Vec<u8> = Vec::new();
            assert(chunk@ =~= old(self).remaining().take(0));
            assert(self.remaining() =~= old(self).remaining().skip(0));
            return Ok(chunk);
        }
        let chunk = slice_to_vec(slice_subrange(self.data.as_slice(), self.pos, self.pos + n));
        self.pos = self.pos + n;
        assert(chunk@ =~= old(self).remaining().take(n as int));
        assert(self.remaining() =~= old(self).remaining().skip(n as int));
        Ok(chunk)
    }
}

impl WriteExt for Vec<u8> {
    open spec fn written(&self) -> Seq<u8> {
        self@
    }

    open spec fn infallible(&self) -> bool {
        true
    }

    fn write_all(&mut self, bytes: &[u8]) -> (r: SshResult<()>) {
        self.extend_from_slice(bytes);
        assert(self@ =~= old(self)@ + bytes@);
        Ok(())
    }
}

} // verus!
