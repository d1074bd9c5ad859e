//! The writer: raw bytes and framed packets to a byte sink.

use vstd::prelude::*;
use crate::packet::{encodable, encode_packet, packet_bytes, padding_for, select_padding};
use crate::result::{SshErrorKind, SshResult};
use crate::util::{write_failed, WriteExt};

verus! {

/// What writing `payload` as one packet does to a sink and gives. A payload
/// that cannot be framed is refused with nothing written. Otherwise the packet
/// with the padding that `padding_for` picks is written, or the sink fails
/// part of the way.
pub open spec fn packet_written(
    before: Seq<u8>,
    after: Seq<u8>,
    infallible: bool,
    payload: Seq<u8>,
    r: SshResult<()>,
) -> bool {
    let padding_len = padding_for(payload.len() as int) as u8;
    match r {
        Ok(_) => {
            &&& encodable(payload, padding_len)
            &&& after == before + packet_bytes(payload, padding_len)
        },
        Err(e) => if encodable(payload, padding_len) {
            write_failed(before, after, packet_bytes(payload, padding_len), infallible, e.kind)
        } else {
            e.kind == SshErrorKind::UnsupportedOperation && after == before
        },
    }
}

/// A byte sink that packets are written to.
pub struct Writer<W: WriteExt> {
    writer: W,
}

impl<W: WriteExt> Writer<W> {
    /// The byte sink underneath.
    pub closed spec fn sink(&self) -> W {
        self.writer
    }

    /// The bytes that the sink has accepted so far.
    pub open spec fn written(&self) -> Seq<u8> {
        self.sink().written()
    }

    /// Whether the sink underneath never reports an error.
    pub open spec fn infallible(&self) -> bool {
        self.sink().infallible()
    }

    /// A writer on `writer`.
    pub fn new(writer: W) -> (w: Writer<W>)
        ensures
            w.sink() == writer,
    {
        Writer { writer }
    }

    /// Hands all of `buf` to the sink, or fails.
    pub fn write_raw(&mut self, buf: &[u8]) -> (r: SshResult<()>)
        ensures
            old(self).infallible() ==> r is Ok && final(self).infallible(),
            match r {
                Ok(_) => final(self).written() == old(self).written() + buf@,
                Err(e) => write_failed(
                    old(self).written(),
                    final(self).written(),
                    buf@,
                    old(self).infallible(),
                    e.kind,
                ),
            },
    {
        self.writer.write_all(buf)
    }

    /// Frames `payload` as one packet and writes it. The padding is the least
    /// that makes the packet a multiple of `BLOCK_SIZE` bytes long, and is
    /// zero throughout. A payload too long for one packet is refused before
    /// anything is written.
    pub fn write_raw_packet(&mut self, payload: &[u8]) -> (r: SshResult<()>)
        ensures
            old(self).infallible() ==> final(self).infallible(),
            packet_written(
                old(self).written(),
                final(self).written(),
                old(self).infallible(),
                payload@,
                r,
            ),
    {
        let padding_len = select_padding(payload.len());
        let bytes = encode_packet(payload, padding_len)?;
        self.write_raw(bytes.as_slice())
    }
}

impl Writer<Vec<u8>> {
    /// Hands out the bytes that were written since the last call, and starts
    /// afresh.
    pub fn take_written(&mut self) -> (bytes: Vec<u8>)
        ensures
            bytes@ == old(self).written(),
            final(self).written() == Seq::<u8>::empty(),
            final(self).infallible(),
    {
        let mut bytes: Vec<u8> = Vec::new();
        std::mem::swap(&mut self.writer, &mut bytes);
        bytes
    }
}

} // verus!
