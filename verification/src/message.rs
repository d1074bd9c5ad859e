//! Typed values on the wire: integers, booleans, byte blocks and name lists.

use vstd::prelude::*;
use crate::bytes::{
    be_u16, be_u16_bytes, be_u32, be_u32_bytes, be_u64, be_u64_bytes, lemma_be_u16_round_trip,
    lemma_be_u32_round_trip, lemma_be_u64_round_trip, lemma_be_u32_bound, saturated, u32_to_be,
};
use crate::names::{
    all_comma_free, join, join_names, joined_len, lemma_split_join, names_of, split, split_names,
};
use crate::result::{SshError, SshErrorKind, SshResult};
use crate::util::{is_tail_of, lemma_tail_of_tail, write_failed, ReadExt, WriteExt};

verus! {

/// An item that can be written to and read from an SSH stream, following the
/// data type representations of RFC 4251.
pub trait SshItem: Sized + View {
    /// The bytes that stand for the item on the wire.
    spec fn wire(&self) -> Seq<u8>;

    /// Whether the item has a representation on the wire at all.
    spec fn encodable(&self) -> bool;

    /// Whether reading the item's bytes gives the item back.
    spec fn canonical(&self) -> bool;

    /// What reading one item from the front of `s` gives: the item and the
    /// number of bytes it takes, or the way in which the bytes fall short.
    spec fn parse(s: Seq<u8>) -> Result<(Self::V, int), SshErrorKind>;

    /// An item that can be written and is canonical is read back from its own
    /// bytes, whatever follows them.
    proof fn lemma_round_trip(&self, rest: Seq<u8>)
        requires
            self.encodable(),
            self.canonical(),
        ensures
            Self::parse(self.wire() + rest) == Ok::<(Self::V, int), SshErrorKind>(
                (self@, self.wire().len() as int),
            ),
    ;

    /// Writes the item. An item without a representation is refused before
    /// anything is written.
    fn ssh_write<W: WriteExt>(&self, writer: &mut W) -> (r: SshResult<()>)
        ensures
            old(writer).infallible() ==> final(writer).infallible(),
            match r {
                Ok(_) => {
                    &&& self.encodable()
                    &&& final(writer).written() == old(writer).written() + self.wire()
                },
                Err(e) => if self.encodable() {
                    write_failed(
                        old(writer).written(),
                        final(writer).written(),
                        self.wire(),
                        old(writer).infallible(),
                        e.kind,
                    )
                } else {
                    e.kind == SshErrorKind::UnsupportedOperation && final(writer).written() == old(
                        writer,
                    ).written()
                },
            },
    ;

    /// Reads one item from the front of the source.
    fn ssh_read<R: ReadExt>(reader: &mut R) -> (r: SshResult<Self>)
        ensures
            old(reader).infallible() ==> final(reader).infallible(),
            is_tail_of(final(reader).remaining(), old(reader).remaining()),
            match r {
                Ok(item) => {
                    &&& Self::parse(old(reader).remaining()) matches Ok((value, used))
                    &&& item@ == value
                    &&& 0 <= used <= old(reader).remaining().len()
                    &&& final(reader).remaining() == old(reader).remaining().skip(used)
                },
                Err(e) => {
                    ||| e.kind == SshErrorKind::IoFailure && !old(reader).infallible()
                    ||| Self::parse(old(reader).remaining()) == Err::<(Self::V, int), SshErrorKind>(
                        e.kind,
                    )
                },
            },
    ;

    /// The number of bytes that the item takes on the wire.
    fn ssh_size(&self) -> (n: u64)
        ensures
            n == saturated(self.wire().len()),
    ;
}

impl SshItem for u8 {
    open spec fn wire(&self) -> Seq<u8> {
        seq![*self]
    }

    open spec fn encodable(&self) -> bool {
        true
    }

    open spec fn canonical(&self) -> bool {
        true
    }

    open spec fn parse(s: Seq<u8>) -> Result<(u8, int), SshErrorKind> {
        if s.len() < 1 {
            Err(SshErrorKind::UnexpectedEndOfStream)
        } else {
            Ok((s[0], 1))
        }
    }

    proof fn lemma_round_trip(&self, rest: Seq<u8>) {
    }

    fn ssh_write<W: WriteExt>(&self, writer: &mut W) -> (r: SshResult<()>) {
        writer.write_u8(*self)
    }

    fn ssh_read<R: ReadExt>(reader: &mut R) -> (r: SshResult<u8>) {
        reader.read_u8()
    }

    fn ssh_size(&self) -> (n: u64) {
        1
    }
}

impl SshItem for u16 {
    open spec fn wire(&self) -> Seq<u8> {
        be_u16_bytes(*self)
    }

    open spec fn encodable(&self) -> bool {
        true
    }

    open spec fn canonical(&self) -> bool {
        true
    }

    open spec fn parse(s: Seq<u8>) -> Result<(u16, int), SshErrorKind> {
        if s.len() < 2 {
            Err(SshErrorKind::UnexpectedEndOfStream)
        } else {
            Ok((be_u16(s.take(2)) as u16, 2))
        }
    }

    proof fn lemma_round_trip(&self, rest: Seq<u8>) {
        lemma_be_u16_round_trip(*self, be_u16_bytes(*self));
        assert((self.wire() + rest).take(2) =~= be_u16_bytes(*self));
    }

    fn ssh_write<W: WriteExt>(&self, writer: &mut W) -> (r: SshResult<()>) {
        writer.write_be_u16(*self)
    }

    fn ssh_read<R: ReadExt>(reader: &mut R) -> (r: SshResult<u16>) {
        reader.read_be_u16()
    }

    fn ssh_size(&self) -> (n: u64) {
        2
    }
}

impl SshItem for u32 {
    open spec fn wire(&self) -> Seq<u8> {
        be_u32_bytes(*self)
    }

    open spec fn encodable(&self) -> bool {
        true
    }

    open spec fn canonical(&self) -> bool {
        true
    }

    open spec fn parse(s: Seq<u8>) -> Result<(u32, int), SshErrorKind> {
        if s.len() < 4 {
            Err(SshErrorKind::UnexpectedEndOfStream)
        } else {
            Ok((be_u32(s.take(4)) as u32, 4))
        }
    }

    proof fn lemma_round_trip(&self, rest: Seq<u8>) {
        lemma_be_u32_round_trip(*self, be_u32_bytes(*self));
        assert((self.wire() + rest).take(4) =~= be_u32_bytes(*self));
    }

    fn ssh_write<W: WriteExt>(&self, writer: &mut W) -> (r: SshResult<()>) {
        writer.write_be_u32(*self)
    }

    fn ssh_read<R: ReadExt>(reader: &mut R) -> (r: SshResult<u32>) {
        reader.read_be_u32()
    }

    fn ssh_size(&self) -> (n: u64) {
        4
    }
}

impl SshItem for u64 {
    open spec fn wire(&self) -> Seq<u8> {
        be_u64_bytes(*self)
    }

    open spec fn encodable(&self) -> bool {
        true
    }

    open spec fn canonical(&self) -> bool {
        true
    }

    open spec fn parse(s: Seq<u8>) -> Result<(u64, int), SshErrorKind> {
        if s.len() < 8 {
            Err(SshErrorKind::UnexpectedEndOfStream)
        } else {
            Ok((be_u64(s.take(8)) as u64, 8))
        }
    }

    proof fn lemma_round_trip(&self, rest: Seq<u8>) {
        lemma_be_u64_round_trip(*self, be_u64_bytes(*self));
        assert((self.wire() + rest).take(8) =~= be_u64_bytes(*self));
    }

    fn ssh_write<W: WriteExt>(&self, writer: &mut W) -> (r: SshResult<()>) {
        writer.write_be_u64(*self)
    }

    fn ssh_read<R: ReadExt>(reader: &mut R) -> (r: SshResult<u64>) {
        reader.read_be_u64()
    }

    fn ssh_size(&self) -> (n: u64) {
        8
    }
}

/// Decodes the byte that stands for a boolean: zero is false, anything else is
/// true. With `strict` set, a byte other than zero and one is refused.
pub fn decode_bool(byte: u8, strict: bool) -> (r: SshResult<bool>)
    ensures
        match r {
            Ok(value) => value == (byte != 0) && !(strict && byte > 1),
            Err(e) => strict && byte > 1 && e.kind == SshErrorKind::ProtocolViolation,
        },
{
    if strict && byte > 1 {
        return SshError::new(
            SshErrorKind::ProtocolViolation,
            "boolean that is neither zero nor one".to_string(),
        );
    }
    Ok(byte != 0)
}

/// A boolean is one byte. Reading accepts every byte that is not zero as true;
/// `decode_bool` offers the strict reading.
impl SshItem for bool {
    open spec fn wire(&self) -> Seq<u8> {
        seq![if *self { 1u8 } else { 0u8 }]
    }

    open spec fn encodable(&self) -> bool {
        true
    }

    open spec fn canonical(&self) -> bool {
        true
    }

    open spec fn parse(s: Seq<u8>) -> Result<(bool, int), SshErrorKind> {
        if s.len() < 1 {
            Err(SshErrorKind::UnexpectedEndOfStream)
        } else {
            Ok((s[0] != 0, 1))
        }
    }

    proof fn lemma_round_trip(&self, rest: Seq<u8>) {
    }

    fn ssh_write<W: WriteExt>(&self, writer: &mut W) -> (r: SshResult<()>) {
        let byte: u8 = if *self {
            1
        } else {
            0
        };
        writer.write_u8(byte)
    }

    fn ssh_read<R: ReadExt>(reader: &mut R) -> (r: SshResult<bool>) {
        let byte = reader.read_u8()?;
        decode_bool(byte, false)
    }

    fn ssh_size(&self) -> (n: u64) {
        1
    }
}

/// A block of sixteen bytes is copied as it is.
impl SshItem for [u8; 16] {
    open spec fn wire(&self) -> Seq<u8> {
        self@
    }

    open spec fn encodable(&self) -> bool {
        true
    }

    open spec fn canonical(&self) -> bool {
        true
    }

    open spec fn parse(s: Seq<u8>) -> Result<(Seq<u8>, int), SshErrorKind> {
        if s.len() < 16 {
            Err(SshErrorKind::UnexpectedEndOfStream)
        } else {
            Ok((s.take(16), 16))
        }
    }

    proof fn lemma_round_trip(&self, rest: Seq<u8>) {
        assert((self@ + rest).take(16) =~= self@);
    }

    fn ssh_write<W: WriteExt>(&self, writer: &mut W) -> (r: SshResult<()>) {
        writer.write_all(self.as_slice())
    }

    fn ssh_read<R: ReadExt>(reader: &mut R) -> (r: SshResult<[u8; 16]>) {
        let b = reader.read_exact_to_vec(16)?;
        let block: [u8; 16] = [
            b[0],
            b[1],
            b[2],
            b[3],
            b[4],
            b[5],
            b[6],
            b[7],
            b[8],
            b[9],
            b[10],
            b[11],
            b[12],
            b[13],
            b[14],
            b[15],
        ];
        assert(block@ =~= b@);
        Ok(block)
    }

    fn ssh_size(&self) -> (n: u64) {
        16
    }
}

/// An ordered list of names, each a string of bytes.
pub struct NameList(pub Vec<Vec<u8>>);

impl View for NameList {
    type V = Seq<Seq<u8>>;

    open spec fn view(&self) -> Seq<Seq<u8>> {
        names_of(self.0@)
    }
}

/// A name list on the wire: the length of the joined names in four bytes,
/// then the joined names.
pub open spec fn name_list_wire(names: Seq<Seq<u8>>) -> Seq<u8> {
    be_u32_bytes(join(names).len() as u32) + join(names)
}

/// The joined names are short enough for their length to fit in four bytes.
pub open spec fn name_list_encodable(names: Seq<Seq<u8>>) -> bool {
    join(names).len() <= u32::MAX
}

/// The list is one that reading can give: it has a name, and no name holds a
/// comma.
pub open spec fn name_list_canonical(names: Seq<Seq<u8>>) -> bool {
    names.len() >= 1 && all_comma_free(names)
}

/// What reading a name list from the front of `s` gives.
pub open spec fn name_list_parse(s: Seq<u8>) -> Result<(Seq<Seq<u8>>, int), SshErrorKind> {
    if s.len() < 4 {
        Err(SshErrorKind::UnexpectedEndOfStream)
    } else {
        let len = be_u32(s.take(4));
        if s.len() < 4 + len {
            Err(SshErrorKind::UnexpectedEndOfStream)
        } else {
            Ok((split(s.subrange(4, 4 + len)), 4 + len))
        }
    }
}

/// A name list that can be written and is canonical is read back from its own
/// bytes, whatever follows them.
pub proof fn lemma_name_list_round_trip(names: Seq<Seq<u8>>, rest: Seq<u8>)
    requires
        name_list_encodable(names),
        name_list_canonical(names),
    ensures
        name_list_parse(name_list_wire(names) + rest) == Ok::<(Seq<Seq<u8>>, int), SshErrorKind>(
            (names, name_list_wire(names).len() as int),
        ),
{
    let blob = join(names);
    let len = blob.len() as u32;
    let s = name_list_wire(names) + rest;
    lemma_be_u32_round_trip(len, be_u32_bytes(len));
    assert(s.take(4) =~= be_u32_bytes(len));
    assert(s.subrange(4, 4 + len) =~= blob);
    lemma_split_join(names);
}

impl SshItem for NameList {
    open spec fn wire(&self) -> Seq<u8> {
        name_list_wire(self@)
    }

    open spec fn encodable(&self) -> bool {
        name_list_encodable(self@)
    }

    open spec fn canonical(&self) -> bool {
        name_list_canonical(self@)
    }

    open spec fn parse(s: Seq<u8>) -> Result<(Seq<Seq<u8>>, int), SshErrorKind> {
        name_list_parse(s)
    }

    proof fn lemma_round_trip(&self, rest: Seq<u8>) {
        lemma_name_list_round_trip(self@, rest);
    }

    fn ssh_write<W: WriteExt>(&self, writer: &mut W) -> (r: SshResult<()>) {
        let blob = join_names(&self.0);
        if blob.len() > u32::MAX as usize {
            return SshError::new(
                SshErrorKind::UnsupportedOperation,
                "name list too long for its length prefix".to_string(),
            );
        }
        let mut bytes: Vec<u8> = Vec::new();
        let len = u32_to_be(blob.len() as u32);
        bytes.extend_from_slice(len.as_slice());
        bytes.extend_from_slice(blob.as_slice());
        assert(bytes@ =~= self.wire());
        writer.write_all(bytes.as_slice())
    }

    fn ssh_read<R: ReadExt>(reader: &mut R) -> (r: SshResult<NameList>) {
        let ghost s = reader.remaining();
        let len = reader.read_be_u32()?;
        let ghost after_len = reader.remaining();
        proof {
            lemma_be_u32_bound(s.take(4));
        }
        let blob = match reader.read_exact_to_vec(len as usize) {
            Ok(blob) => blob,
            Err(e) => {
                proof {
                    lemma_tail_of_tail(reader.remaining(), after_len, s);
                }
                return Err(e);
            },
        };
        let names = split_names(blob.as_slice());
        proof {
            assert(blob@ =~= s.subrange(4, 4 + len));
            assert(reader.remaining() =~= s.skip(4 + len));
        }
        Ok(NameList(names))
    }

    fn ssh_size(&self) -> (n: u64) {
        joined_len(&self.0).saturating_add(4)
    }
}

} // verus!
