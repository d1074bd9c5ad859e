//! The buffered reader: lines, exact lengths and packets from a byte source
//! that delivers its bytes in pieces of any length.

use vstd::prelude::*;
use vstd::slice::{slice_subrange, slice_to_vec};
use crate::bytes::{lemma_be_u32_bound, u32_from_be};
use crate::line::{
    crlf_at, first_crlf_at, lemma_crlf_in_prefix, lemma_next_line_found, lemma_next_line_missing,
    next_line, MAX_LINE_LEN,
};
use crate::packet::{check_header, packet_outcome, HEADER_LEN, MAC_LEN};
use crate::result::{SshError, SshErrorKind, SshResult};
use crate::util::{MemorySource, ReadExt};
use crate::window::{scan_end, Window};

verus! {

/// The most bytes that one refill asks of the source.
pub const READ_CHUNK: usize = 1024;

/// What reading one packet does to a stream and gives: the outcome that
/// `packet_outcome` names, with the bytes used up that it names, or an error of
/// a source that can fail, with the stream as it was.
pub open spec fn packet_read(
    before: Seq<u8>,
    after: Seq<u8>,
    infallible: bool,
    r: SshResult<Vec<u8>>,
) -> bool {
    let (outcome, used) = packet_outcome(before);
    match r {
        Ok(payload) => {
            &&& outcome == Ok::<Seq<u8>, SshErrorKind>(payload@)
            &&& after == before.skip(used)
        },
        Err(e) => {
            ||| outcome == Err::<Seq<u8>, SshErrorKind>(e.kind) && after == before.skip(used)
            ||| e.kind == SshErrorKind::IoFailure && !infallible && after == before
        },
    }
}

/// The buffer has grown to no more than `limit` bytes, if it has grown at
/// all.
pub open spec fn grown_within(before: nat, after: nat, limit: int) -> bool {
    after <= before || after <= limit
}

/// What reading one line gives, as `next_line` gives it, for the result `r`.
pub open spec fn line_read(r: SshResult<Vec<u8>>, outcome: Result<Seq<u8>, SshErrorKind>) -> bool {
    match r {
        Ok(line) => outcome == Ok::<Seq<u8>, SshErrorKind>(line@),
        Err(e) => outcome == Err::<Seq<u8>, SshErrorKind>(e.kind),
    }
}

/// A byte source together with the bytes already taken from it and not yet
/// handed out.
pub struct Reader<R: ReadExt> {
    reader: R,
    window: Window,
}

impl<R: ReadExt> Reader<R> {
    /// The bytes taken from the source and not yet handed out, oldest first.
    pub closed spec fn buffered(&self) -> Seq<u8> {
        self.window.bytes()
    }

    /// The byte source underneath.
    pub closed spec fn source(&self) -> R {
        self.reader
    }

    /// Everything that is still to be read through this reader: the buffered
    /// bytes, then what the source has yet to deliver.
    pub open spec fn stream(&self) -> Seq<u8> {
        self.buffered() + self.source().remaining()
    }

    /// Whether the source underneath never reports an error.
    pub open spec fn infallible(&self) -> bool {
        self.source().infallible()
    }

    /// A reader on `reader` with nothing buffered.
    pub fn new(reader: R) -> (r: Reader<R>)
        ensures
            r.buffered() == Seq::<u8>::empty(),
            r.source() == reader,
            r.stream() == reader.remaining(),
    {
        let r = Reader { reader, window: Window::new() };
        assert(r.stream() =~= reader.remaining());
        r
    }

    /// Pulls up to `READ_CHUNK` bytes from the source into the buffer and
    /// returns how many came. None come only when the source is exhausted.
    pub fn read_to_buf(&mut self) -> (r: SshResult<usize>)
        ensures
            old(self).infallible() ==> r is Ok && final(self).infallible(),
            final(self).stream() == old(self).stream(),
            match r {
                Ok(n) => {
                    &&& n <= READ_CHUNK
                    &&& n <= old(self).source().remaining().len()
                    &&& final(self).buffered() == old(self).buffered() + old(
                        self,
                    ).source().remaining().take(n as int)
                    &&& final(self).source().remaining() == old(self).source().remaining().skip(
                        n as int,
                    )
                    &&& n == 0 <==> old(self).source().remaining().len() == 0
                },
                Err(e) => {
                    &&& e.kind == SshErrorKind::IoFailure
                    &&& final(self).buffered() == old(self).buffered()
                    &&& final(self).source().remaining() == old(self).source().remaining()
                },
            },
    {
        let chunk = self.reader.read_chunk(READ_CHUNK)?;
        let n: usize = chunk.len();
        if n > 0 {
            self.window.append(chunk.as_slice());
        }
        proof {
            let rem = old(self).source().remaining();
            assert(self.buffered() =~= old(self).buffered() + rem.take(n as int));
            assert(self.stream() =~= old(self).stream());
        }
        Ok(n)
    }

    /// Reads one line: everything up to and including the first carriage
    /// return and line feed. The source is asked for more only while the buffer
    /// holds no delimiter, and the scan of the buffer goes on from where it
    /// last stopped, in this call or in one before it that failed, so that no
    /// index is tried for a delimiter twice.
    ///
    /// A call that fails leaves the stream as it was.
    ///
    /// Where the buffer alone decides, because it holds a delimiter within
    /// the longest line or is as long as that line without one, the source is
    /// not asked at all. The buffer never grows beyond the longest line and
    /// one refill.
    pub fn read_line(&mut self) -> (r: SshResult<Vec<u8>>)
        ensures
            old(self).infallible() ==> final(self).infallible(),
            next_line(old(self).buffered()) != Err::<Seq<u8>, SshErrorKind>(
                SshErrorKind::UnexpectedEndOfStream,
            ) ==> final(self).source() == old(self).source() && line_read(
                r,
                next_line(old(self).buffered()),
            ),
            grown_within(
                old(self).buffered().len(),
                final(self).buffered().len(),
                MAX_LINE_LEN + READ_CHUNK,
            ),
            match r {
                Ok(line) => {
                    &&& next_line(old(self).stream()) == Ok::<Seq<u8>, SshErrorKind>(line@)
                    &&& final(self).stream() == old(self).stream().skip(line@.len() as int)
                },
                Err(e) => {
                    &&& final(self).stream() == old(self).stream()
                    &&& {
                        ||| e.kind == SshErrorKind::IoFailure && !old(self).infallible()
                        ||| next_line(old(self).stream()) == Err::<Seq<u8>, SshErrorKind>(e.kind)
                    }
                },
            },
    {
        let mut len: usize = self.window.len();
        loop
            invariant
                self.stream() == old(self).stream(),
                old(self).infallible() ==> self.infallible(),
                len == self.buffered().len(),
                grown_within(old(self).buffered().len(), len as nat, MAX_LINE_LEN + READ_CHUNK),
                next_line(old(self).buffered()) != Err::<Seq<u8>, SshErrorKind>(
                    SshErrorKind::UnexpectedEndOfStream,
                ) ==> self.source() == old(self).source() && self.buffered() == old(
                    self,
                ).buffered(),
            decreases
                    (if len < MAX_LINE_LEN {
                        MAX_LINE_LEN - len
                    } else {
                        0
                    }),
        {
            let ghost stream = self.stream();
            let ghost held = self.buffered();
            let ghost rem = self.source().remaining();
            match self.window.find_line() {
                Some(i) => {
                    proof {
                        lemma_crlf_in_prefix(held, rem, i as int);
                        lemma_crlf_in_prefix(held, rem, i + 1);
                        assert(crlf_at(held, i as int));
                        assert(crlf_at(stream, i as int));
                        assert(first_crlf_at(stream, i as int));
                        lemma_next_line_found(stream, i as int);
                        lemma_next_line_found(held, i as int);
                        assert(held.take(i + 2) =~= stream.take(i + 2));
                    }
                    return Ok(self.take(i + 2));
                },
                None => {},
            }
            if len >= MAX_LINE_LEN {
                proof {
                    lemma_crlf_in_prefix(held, rem, scan_end(held.len()));
                    lemma_next_line_missing(stream, scan_end(held.len()));
                    lemma_next_line_missing(held, scan_end(held.len()));
                }
                return SshError::new(
                    SshErrorKind::ProtocolViolation,
                    "no line ending within the longest line allowed".to_string(),
                );
            }
            proof {
                lemma_next_line_missing(held, scan_end(held.len()));
            }
            let n = self.read_to_buf()?;
            if n == 0 {
                proof {
                    assert(stream =~= held);
                    lemma_next_line_missing(stream, scan_end(held.len()));
                }
                return SshError::new(
                    SshErrorKind::UnexpectedEndOfStream,
                    "the byte source ended inside a line".to_string(),
                );
            }
            assert(self.buffered().len() == held.len() + n) by {
                assert(self.buffered() == held + rem.take(n as int));
            }
            len = self.window.len();
        }
    }

    /// Pulls from the source until the buffer holds at least `need` bytes.
    /// The stream stays as it is, whether that succeeds or not. A buffer that
    /// holds as many already is left as it is, and so is the source. The
    /// buffer never grows beyond `need` and one refill.
    pub fn fill(&mut self, need: u64) -> (r: SshResult<()>)
        ensures
            old(self).infallible() ==> final(self).infallible(),
            final(self).stream() == old(self).stream(),
            old(self).buffered().len() >= need ==> r is Ok && *final(self) == *old(self),
            grown_within(
                old(self).buffered().len(),
                final(self).buffered().len(),
                need + READ_CHUNK,
            ),
            match r {
                Ok(_) => final(self).buffered().len() >= need,
                Err(e) => {
                    ||| e.kind == SshErrorKind::IoFailure && !old(self).infallible()
                    ||| e.kind == SshErrorKind::UnexpectedEndOfStream && old(self).stream().len()
                        < need
                },
            },
    {
        let mut have: usize = self.window.len();
        while (have as u64) < need
            invariant
                self.stream() == old(self).stream(),
                old(self).infallible() ==> self.infallible(),
                have == self.buffered().len(),
                old(self).buffered().len() >= need ==> *self == *old(self),
                grown_within(old(self).buffered().len(), have as nat, need + READ_CHUNK),
            decreases
                    (if have < need {
                        need - have
                    } else {
                        0
                    }),
        {
            let ghost before = self.buffered();
            let ghost rem = self.source().remaining();
            let n = self.read_to_buf()?;
            assert(self.buffered().len() == before.len() + n) by {
                assert(self.buffered() == before + rem.take(n as int));
            }
            if n == 0 {
                assert(self.stream() =~= self.buffered());
                return SshError::new(
                    SshErrorKind::UnexpectedEndOfStream,
                    "the byte source ended inside a value".to_string(),
                );
            }
            have = self.window.len();
        }
        Ok(())
    }

    /// Takes the first `len` bytes out of the buffer.
    fn take(&mut self, len: usize) -> (bytes: Vec<u8>)
        requires
            len <= old(self).buffered().len(),
        ensures
            bytes@ == old(self).stream().take(len as int),
            bytes@ == old(self).buffered().take(len as int),
            final(self).stream() == old(self).stream().skip(len as int),
            final(self).buffered() == old(self).buffered().skip(len as int),
            final(self).source() == old(self).source(),
    {
        let ghost stream = self.stream();
        let bytes = self.window.take(len);
        proof {
            assert(bytes@ =~= stream.take(len as int));
            assert(self.stream() =~= stream.skip(len as int));
        }
        bytes
    }

    /// Reads exactly `len` bytes, from the buffer first and from the source
    /// for what the buffer lacks.
    ///
    /// A call that fails leaves the stream as it was. Where the buffer holds
    /// `len` bytes already, the source is not asked at all.
    pub fn read_exact_to_vec(&mut self, len: usize) -> (r: SshResult<Vec<u8>>)
        ensures
            old(self).infallible() ==> final(self).infallible(),
            old(self).buffered().len() >= len ==> r is Ok && final(self).source() == old(
                self,
            ).source(),
            grown_within(
                old(self).buffered().len(),
                final(self).buffered().len(),
                len + READ_CHUNK,
            ),
            match r {
                Ok(bytes) => {
                    &&& len <= old(self).stream().len()
                    &&& bytes@ == old(self).stream().take(len as int)
                    &&& final(self).stream() == old(self).stream().skip(len as int)
                },
                Err(e) => {
                    &&& final(self).stream() == old(self).stream()
                    &&& {
                        ||| e.kind == SshErrorKind::IoFailure && !old(self).infallible()
                        ||| e.kind == SshErrorKind::UnexpectedEndOfStream && old(
                            self,
                        ).stream().len() < len
                    }
                },
            },
    {
        self.fill(len as u64)?;
        Ok(self.take(len))
    }

    /// Reads one packet and returns its payload. The padding is dropped, and
    /// so are the `MAC_LEN` bytes behind it, unchecked.
    ///
    /// A header whose lengths break the rules is taken from the stream, and
    /// nothing behind it. Any other failure leaves the stream as it was, so
    /// that the call can be made again once more bytes have come. Where the
    /// buffer alone decides, because it holds a whole packet or a header that
    /// breaks the rules, the source is not asked at all.
    pub fn read_raw_packet(&mut self) -> (r: SshResult<Vec<u8>>)
        ensures
            old(self).infallible() ==> final(self).infallible(),
            packet_read(old(self).stream(), final(self).stream(), old(self).infallible(), r),
            packet_outcome(old(self).buffered()).0 != Err::<Seq<u8>, SshErrorKind>(
                SshErrorKind::UnexpectedEndOfStream,
            ) ==> final(self).source() == old(self).source() && packet_read(
                old(self).stream(),
                final(self).stream(),
                true,
                r,
            ),
    {
        let ghost stream = self.stream();
        let ghost held = self.buffered();
        assert(stream.skip(0) =~= stream);
        proof {
            if held.len() >= HEADER_LEN {
                assert(held.take(4) =~= stream.take(4));
                assert(held[4] == stream[4]);
            }
        }
        self.fill(HEADER_LEN as u64)?;
        let header = self.window.as_slice();
        let packet_len: u32 = u32_from_be(slice_subrange(header, 0, 4));
        let padding_len: u8 = header[4];
        proof {
            assert(header@.subrange(0, 4) =~= stream.take(4));
            assert(header@[4] == stream[4]);
            lemma_be_u32_bound(stream.take(4));
        }
        let payload_len: u32 = match check_header(packet_len, padding_len) {
            Ok(payload_len) => payload_len,
            Err(e) => {
                let _ = self.take(HEADER_LEN);
                return Err(e);
            },
        };
        let total: u64 = 4 + packet_len as u64 + MAC_LEN as u64;
        self.fill(total)?;
        let have: usize = self.window.len();
        assert(total <= have);
        let packet = self.take(total as usize);
        let payload = slice_to_vec(
            slice_subrange(packet.as_slice(), HEADER_LEN, HEADER_LEN + payload_len as usize),
        );
        assert(payload@ =~= stream.subrange(HEADER_LEN as int, HEADER_LEN + payload_len));
        Ok(payload)
    }
}

impl Reader<MemorySource> {
    /// Puts `bytes` at the end of the stream.
    pub fn feed(&mut self, bytes: &[u8])
        ensures
            final(self).stream() == old(self).stream() + bytes@,
            final(self).infallible() == old(self).infallible(),
    {
        let ghost before = self.stream();
        self.reader.feed(bytes);
        assert(self.stream() =~= before + bytes@);
    }
}

} // verus!
