//! The client side of the identification exchange that opens a connection.
//!
//! The client first sends its own identification line. It then reads lines
//! until one begins with `SSH`, which is the peer's identification; lines
//! before it are discarded, up to a limit. After that, packets are exchanged.
//!
//! ```text
//! Start -> VersionSent -> VersionReceived -> PacketExchange
//! ```

use vstd::prelude::*;
use crate::line::{lemma_next_line_shape, lemma_next_line_stable, next_line, MAX_LINE_LEN};
use crate::reader::{grown_within, packet_read, Reader, READ_CHUNK};
use crate::result::{kind_of, SshError, SshErrorKind, SshResult};
use crate::util::{is_tail_of, write_failed, ReadExt, WriteExt};
use crate::writer::{packet_written, Writer};

verus! {

/// The most lines that may come before the peer's identification line.
pub const MAX_DISCARDED_LINES: usize = 1024;

/// The identification line that the client sends:
/// `SSH-2.0-kissshot Acerola-Orion Heart-Under-Blade`, carriage return, line
/// feed.
pub open spec fn identification() -> Seq<u8> {
    seq![
        83u8, 83, 72, 45, 50, 46, 48, 45, 107, 105, 115, 115, 115, 104, 111, 116, 32, 65, 99, 101,
        114, 111, 108, 97, 45, 79, 114, 105, 111, 110, 32, 72, 101, 97, 114, 116, 45, 85, 110, 100,
        101, 114, 45, 66, 108, 97, 100, 101, 13, 10,
    ]
}

/// Whether a line is an identification line: longer than three bytes, and
/// beginning with `SSH`.
pub open spec fn is_version(line: Seq<u8>) -> bool {
    line.len() > 3 && line[0] == 83 && line[1] == 83 && line[2] == 72
}

/// What the exchange reads from the stream `s` while `budget` more lines may
/// be discarded: the outcome, how many bytes of the stream it uses up, and how
/// many lines it discards.
///
/// The first identification line ends the exchange and gives the peer's
/// version, which is that line without its delimiter. A line that is none is
/// discarded, and with one line more than the budget allows the protocol is
/// broken. Where no further line can be read, the exchange fails as the read
/// does, and the lines discarded until then stay discarded.
pub open spec fn version_exchange(s: Seq<u8>, budget: int) -> (
    Result<Seq<u8>, SshErrorKind>,
    int,
    int,
)
    decreases budget + 1,
{
    if budget < 0 {
        (Err(SshErrorKind::ProtocolViolation), 0, 0)
    } else {
        match next_line(s) {
            Err(kind) => (Err(kind), 0, 0),
            Ok(line) => if is_version(line) {
                (Ok(line.take(line.len() - 2)), line.len() as int, 0)
            } else {
                let (outcome, used, lines) = version_exchange(s.skip(line.len() as int), budget - 1);
                (outcome, line.len() + used, lines + 1)
            },
        }
    }
}

/// The exchange never uses up more than the stream holds, and never discards
/// more than one line beyond its budget.
pub proof fn lemma_version_exchange_bounds(s: Seq<u8>, budget: int)
    ensures
        0 <= version_exchange(s, budget).1 <= s.len(),
        0 <= version_exchange(s, budget).2,
        budget >= 0 ==> version_exchange(s, budget).2 <= budget + 1,
        budget < 0 ==> version_exchange(s, budget).2 == 0,
    decreases budget + 1,
{
    if budget >= 0 && next_line(s) is Ok {
        lemma_next_line_shape(s);
        let line = next_line(s)->Ok_0;
        if !is_version(line) {
            lemma_version_exchange_bounds(s.skip(line.len() as int), budget - 1);
        }
    }
}

/// An exchange that stopped because the stream ended goes on where it
/// stopped once more bytes have come: what it has used up and discarded
/// stays so, and the rest is read from what is left together with the new
/// bytes.
pub proof fn lemma_version_exchange_resumes(s: Seq<u8>, more: Seq<u8>, budget: int)
    requires
        version_exchange(s, budget).0 == Err::<Seq<u8>, SshErrorKind>(
            SshErrorKind::UnexpectedEndOfStream,
        ),
    ensures
        ({
            let (_, used, lines) = version_exchange(s, budget);
            let (outcome, more_used, more_lines) = version_exchange(
                s.skip(used) + more,
                budget - lines,
            );
            version_exchange(s + more, budget) == (outcome, used + more_used, lines + more_lines)
        }),
    decreases budget + 1,
{
    if budget >= 0 {
        if next_line(s) is Ok {
            lemma_next_line_shape(s);
            lemma_next_line_stable(s, more);
            let line = next_line(s)->Ok_0;
            let n = line.len() as int;
            assert((s + more).skip(n) =~= s.skip(n) + more);
            lemma_version_exchange_resumes(s.skip(n), more, budget - 1);
            let used = version_exchange(s.skip(n), budget - 1).1;
            lemma_version_exchange_bounds(s.skip(n), budget - 1);
            assert(s.skip(n).skip(used) =~= s.skip(n + used));
        } else {
            assert(s.skip(0) =~= s);
        }
    }
}

/// The client's identification line.
pub fn identification_line() -> (line: [u8; 50])
    ensures
        line@ == identification(),
{
    let line: [u8; 50] = [
        83, 83, 72, 45, 50, 46, 48, 45, 107, 105, 115, 115, 115, 104, 111, 116, 32, 65, 99, 101,
        114, 111, 108, 97, 45, 79, 114, 105, 111, 110, 32, 72, 101, 97, 114, 116, 45, 85, 110, 100,
        101, 114, 45, 66, 108, 97, 100, 101, 13, 10,
    ];
    assert(line@ =~= identification());
    line
}

/// Tells whether `line` is an identification line.
pub fn is_version_line(line: &[u8]) -> (b: bool)
    ensures
        b == is_version(line@),
{
    line.len() > 3 && line[0] == 83 && line[1] == 83 && line[2] == 72
}

/// How far the exchange that opens a connection has come.
#[derive(Copy, Clone, PartialEq, Eq, Structural, Debug)]
pub enum HandshakeState {
    /// Nothing has been sent.
    Start,
    /// The client's identification line has been sent.
    VersionSent,
    /// The peer's identification line has been read.
    VersionReceived,
    /// Packets are exchanged.
    PacketExchange,
}

/// A connection seen from the client: the reader and the writer on its two
/// halves, and how far the exchange of identification lines has come.
pub struct Client<R: ReadExt, W: WriteExt> {
    pub reader: Reader<R>,
    pub writer: Writer<W>,
    pub state: HandshakeState,
    /// The lines discarded so far while waiting for the peer's identification.
    pub discarded: usize,
    /// The peer's identification line without its delimiter.
    pub peer_version: Option<Vec<u8>>,
}

impl<R: ReadExt, W: WriteExt> Client<R, W> {
    /// A client that reads from `reader` and writes to `writer`. Nothing has
    /// been exchanged yet.
    pub fn new(reader: R, writer: W) -> (client: Client<R, W>)
        ensures
            client.reader.source() == reader,
            client.reader.buffered() == Seq::<u8>::empty(),
            client.reader.stream() == reader.remaining(),
            client.writer.sink() == writer,
            client.state == HandshakeState::Start,
            client.discarded == 0,
            client.peer_version is None,
    {
        let reader = Reader::new(reader);
        let writer = Writer::new(writer);
        Client { reader, writer, state: HandshakeState::Start, discarded: 0, peer_version: None }
    }

    /// Whether the exchange, begun in the state of `self`, leaves `after`
    /// with outcome `kind` (`None` for success) as `connect` promises.
    ///
    /// Once the exchange is over nothing changes. Before that, the reader's
    /// buffer never grows beyond the longest line and one refill, and where
    /// the client's own line cannot be written the reader is not touched.
    pub open spec fn connected(self, after: Self, kind: Option<SshErrorKind>) -> bool {
        let stream = self.reader.stream();
        let written = self.writer.written();
        let (outcome, used, lines) = version_exchange(
            stream,
            MAX_DISCARDED_LINES - self.discarded,
        );
        match self.state {
            HandshakeState::VersionReceived | HandshakeState::PacketExchange => {
                &&& kind is None
                &&& after == self
            },
            _ => {
                let sent = if self.state == HandshakeState::Start {
                    written + identification()
                } else {
                    written
                };
                &&& grown_within(
                    self.reader.buffered().len(),
                    after.reader.buffered().len(),
                    MAX_LINE_LEN + READ_CHUNK,
                )
                &&& match kind {
                    None => {
                        &&& after.state == HandshakeState::VersionReceived
                        &&& after.writer.written() == sent
                        &&& after.reader.stream() == stream.skip(used)
                        &&& after.discarded == self.discarded + lines
                        &&& after.peer_version matches Some(version)
                        &&& outcome == Ok::<Seq<u8>, SshErrorKind>(version@)
                    },
                    Some(kind) => {
                        &&& after.peer_version == self.peer_version
                        &&& {
                            ||| {
                                &&& self.state == HandshakeState::Start
                                &&& after.state == HandshakeState::Start
                                &&& write_failed(
                                    written,
                                    after.writer.written(),
                                    identification(),
                                    self.writer.infallible(),
                                    kind,
                                )
                                &&& after.reader == self.reader
                                &&& after.discarded == self.discarded
                            }
                            ||| {
                                &&& after.state == HandshakeState::VersionSent
                                &&& after.writer.written() == sent
                                &&& outcome == Err::<Seq<u8>, SshErrorKind>(kind)
                                &&& after.reader.stream() == stream.skip(used)
                                &&& after.discarded == self.discarded + lines
                            }
                            ||| {
                                &&& after.state == HandshakeState::VersionSent
                                &&& after.writer.written() == sent
                                &&& kind == SshErrorKind::IoFailure
                                &&& !self.reader.infallible()
                                &&& is_tail_of(after.reader.stream(), stream)
                                &&& self.discarded <= after.discarded
                            }
                        }
                    },
                }
            },
        }
    }

    /// Exchanges identification lines with the peer.
    ///
    /// From `Start`, the client's line is written first; if that fails,
    /// nothing is read. Then lines are read as `version_exchange` says, and
    /// the peer's version is recorded, which ends the exchange in
    /// `VersionReceived`. A call that fails because the stream has ended can
    /// be made again once more bytes have come: it goes on where the last one
    /// stopped. Once the exchange is over, a call does nothing.
    pub fn connect(&mut self) -> (r: SshResult<()>)
        ensures
            old(self).reader.infallible() ==> final(self).reader.infallible(),
            old(self).writer.infallible() ==> final(self).writer.infallible(),
            old(self).connected(*final(self), kind_of(r)),
    {
        let ghost stream = self.reader.stream();
        if self.state == HandshakeState::Start {
            let id = identification_line();
            self.writer.write_raw(id.as_slice())?;
            self.state = HandshakeState::VersionSent;
        }
        if self.state == HandshakeState::VersionSent {
            let ghost mut used: int = 0;
            let ghost mut lines: int = 0;
            assert(stream.skip(0) =~= stream);
            loop
                invariant
                    old(self).state == HandshakeState::Start || old(self).state
                        == HandshakeState::VersionSent,
                    self.state == HandshakeState::VersionSent,
                    self.writer.written() == if old(self).state == HandshakeState::Start {
                        old(self).writer.written() + identification()
                    } else {
                        old(self).writer.written()
                    },
                    old(self).writer.infallible() ==> self.writer.infallible(),
                    old(self).reader.infallible() ==> self.reader.infallible(),
                    self.peer_version == old(self).peer_version,
                    stream == old(self).reader.stream(),
                    grown_within(
                        old(self).reader.buffered().len(),
                        self.reader.buffered().len(),
                        MAX_LINE_LEN + READ_CHUNK,
                    ),
                    0 <= used <= stream.len(),
                    0 <= lines,
                    self.discarded == old(self).discarded + lines,
                    self.reader.stream() == stream.skip(used),
                    ({
                        let (outcome, more_used, more_lines) = version_exchange(
                            self.reader.stream(),
                            MAX_DISCARDED_LINES - self.discarded,
                        );
                        version_exchange(stream, MAX_DISCARDED_LINES - old(self).discarded) == (
                            outcome,
                            used + more_used,
                            lines + more_lines,
                        )
                    }),
                decreases
                        (if self.discarded <= MAX_DISCARDED_LINES {
                            MAX_DISCARDED_LINES + 1 - self.discarded
                        } else {
                            0
                        }),
            {
                if self.discarded > MAX_DISCARDED_LINES {
                    return SshError::new(
                        SshErrorKind::ProtocolViolation,
                        "too many lines before the identification line".to_string(),
                    );
                }
                let ghost current = self.reader.stream();
                let mut line = self.reader.read_line()?;
                proof {
                    lemma_next_line_shape(current);
                    assert(current.skip(line@.len() as int) =~= stream.skip(used + line@.len()));
                }
                if is_version_line(line.as_slice()) {
                    let n: usize = line.len();
                    line.truncate(n - 2);
                    self.peer_version = Some(line);
                    self.state = HandshakeState::VersionReceived;
                    return Ok(());
                }
                self.discarded = self.discarded + 1;
                proof {
                    used = used + line@.len();
                    lines = lines + 1;
                }
            }
        }
        Ok(())
    }

    /// Reads one packet, as `Reader::read_raw_packet` does. Before the
    /// identification lines have been exchanged no packet may be read: the
    /// call is refused and nothing changes.
    pub fn read_packet(&mut self) -> (r: SshResult<Vec<u8>>)
        ensures
            old(self).reader.infallible() ==> final(self).reader.infallible(),
            final(self).writer == old(self).writer,
            final(self).discarded == old(self).discarded,
            final(self).peer_version == old(self).peer_version,
            if old(self).exchanged() {
                &&& final(self).state == HandshakeState::PacketExchange
                &&& packet_read(
                    old(self).reader.stream(),
                    final(self).reader.stream(),
                    old(self).reader.infallible(),
                    r,
                )
            } else {
                &&& kind_of(r) == Some(SshErrorKind::ProtocolViolation)
                &&& *final(self) == *old(self)
            },
    {
        if !self.is_exchanged() {
            return SshError::new(
                SshErrorKind::ProtocolViolation,
                "packet read before the identification exchange".to_string(),
            );
        }
        self.state = HandshakeState::PacketExchange;
        self.reader.read_raw_packet()
    }

    /// Writes `payload` as one packet, as `Writer::write_raw_packet` does.
    /// Before the identification lines have been exchanged no packet may be
    /// written: the call is refused and nothing changes.
    pub fn write_packet(&mut self, payload: &[u8]) -> (r: SshResult<()>)
        ensures
            old(self).writer.infallible() ==> final(self).writer.infallible(),
            final(self).reader == old(self).reader,
            final(self).discarded == old(self).discarded,
            final(self).peer_version == old(self).peer_version,
            if old(self).exchanged() {
                &&& final(self).state == HandshakeState::PacketExchange
                &&& packet_written(
                    old(self).writer.written(),
                    final(self).writer.written(),
                    old(self).writer.infallible(),
                    payload@,
                    r,
                )
            } else {
                &&& kind_of(r) == Some(SshErrorKind::ProtocolViolation)
                &&& *final(self) == *old(self)
            },
    {
        if !self.is_exchanged() {
            return SshError::new(
                SshErrorKind::ProtocolViolation,
                "packet written before the identification exchange".to_string(),
            );
        }
        self.state = HandshakeState::PacketExchange;
        self.writer.write_raw_packet(payload)
    }

    /// The identification lines have been exchanged.
    pub open spec fn exchanged(self) -> bool {
        self.state == HandshakeState::VersionReceived || self.state
            == HandshakeState::PacketExchange
    }

    /// Tells whether the identification lines have been exchanged.
    pub fn is_exchanged(&self) -> (b: bool)
        ensures
            b == self.exchanged(),
    {
        self.state == HandshakeState::VersionReceived || self.state
            == HandshakeState::PacketExchange
    }
}

} // verus!
