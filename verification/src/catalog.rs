//! The messages that are known, and the records they carry.

use vstd::prelude::*;
use vstd::slice::slice_to_vec;
use crate::bytes::{be_u32, be_u32_bytes, lemma_be_u32_round_trip, saturated};
use crate::message::{
    decode_bool, lemma_name_list_round_trip, name_list_canonical, name_list_encodable,
    name_list_parse, name_list_wire, NameList, SshItem,
};
use crate::result::{SshError, SshErrorKind, SshResult};
use crate::util::{is_tail_of, lemma_tail_of_tail, MemorySource, ReadExt, WriteExt};

verus! {

/// Puts the bytes of `item` behind `bytes`, unless the item has none.
fn append<T: SshItem>(item: &T, bytes: &mut Vec<u8>) -> (r: SshResult<()>)
    ensures
        match r {
            Ok(_) => item.encodable() && final(bytes)@ == old(bytes)@ + item.wire(),
            Err(e) => {
                &&& !item.encodable()
                &&& e.kind == SshErrorKind::UnsupportedOperation
                &&& final(bytes)@ == old(bytes)@
            },
        },
{
    item.ssh_write(bytes)
}

/// The name lists as lists of byte sequences.
pub open spec fn lists_of(lists: Seq<NameList>) -> Seq<Seq<Seq<u8>>> {
    Seq::new(lists.len(), |i: int| lists[i]@)
}

/// Several name lists on the wire, one after the other.
pub open spec fn name_lists_wire(lists: Seq<Seq<Seq<u8>>>) -> Seq<u8>
    decreases lists.len(),
{
    if lists.len() == 0 {
        Seq::empty()
    } else {
        name_lists_wire(lists.drop_last()) + name_list_wire(lists.last())
    }
}

/// Every one of the name lists can be written.
pub open spec fn name_lists_encodable(lists: Seq<Seq<Seq<u8>>>) -> bool {
    forall|i: int| 0 <= i < lists.len() ==> name_list_encodable(#[trigger] lists[i])
}

/// Every one of the name lists is canonical.
pub open spec fn name_lists_canonical(lists: Seq<Seq<Seq<u8>>>) -> bool {
    forall|i: int| 0 <= i < lists.len() ==> name_list_canonical(#[trigger] lists[i])
}

/// What reading `count` name lists from the front of `s` gives: the lists in
/// order and the bytes they take together, or the way in which the first list
/// that cannot be read falls short.
pub open spec fn name_lists_parse(s: Seq<u8>, count: nat) -> Result<
    (Seq<Seq<Seq<u8>>>, int),
    SshErrorKind,
>
    decreases count,
{
    if count == 0 {
        Ok((Seq::empty(), 0))
    } else {
        match name_lists_parse(s, (count - 1) as nat) {
            Err(kind) => Err(kind),
            Ok((lists, used)) => match name_list_parse(s.skip(used)) {
                Err(kind) => Err(kind),
                Ok((list, more)) => Ok((lists.push(list), used + more)),
            },
        }
    }
}

/// One more name list adds its bytes to the end.
pub proof fn lemma_name_lists_wire_step(lists: Seq<Seq<Seq<u8>>>, i: int)
    requires
        0 <= i < lists.len(),
    ensures
        name_lists_wire(lists.take(i + 1)) == name_lists_wire(lists.take(i)) + name_list_wire(
            lists[i],
        ),
{
    assert(lists.take(i + 1).drop_last() =~= lists.take(i));
}

/// Reading `count` name lists gives `count` lists and stays within the bytes.
/// It fails only where the bytes end too early.
pub proof fn lemma_name_lists_parse_bounds(s: Seq<u8>, count: nat)
    ensures
        name_lists_parse(s, count) matches Ok((lists, used)) ==> lists.len() == count && 0 <= used
            <= s.len(),
        name_lists_parse(s, count) matches Err(kind) ==> kind
            == SshErrorKind::UnexpectedEndOfStream,
    decreases count,
{
    if count > 0 {
        lemma_name_lists_parse_bounds(s, (count - 1) as nat);
    }
}

/// Name lists that can be written and are canonical are read back from their
/// own bytes, whatever follows them.
pub proof fn lemma_name_lists_round_trip(lists: Seq<Seq<Seq<u8>>>, rest: Seq<u8>)
    requires
        name_lists_encodable(lists),
        name_lists_canonical(lists),
    ensures
        name_lists_parse(name_lists_wire(lists) + rest, lists.len()) == Ok::<
            (Seq<Seq<Seq<u8>>>, int),
            SshErrorKind,
        >((lists, name_lists_wire(lists).len() as int)),
    decreases lists.len(),
{
    if lists.len() == 0 {
        assert(lists =~= Seq::empty());
    } else {
        let front = lists.drop_last();
        let last = lists.last();
        let s = name_lists_wire(lists) + rest;
        assert(name_list_encodable(last) && name_list_canonical(last));
        assert(name_lists_encodable(front) && name_lists_canonical(front)) by {
            assert forall|i: int| 0 <= i < front.len() implies name_list_encodable(
                #[trigger] front[i],
            ) && name_list_canonical(front[i]) by {
                assert(front[i] == lists[i]);
            }
        }
        lemma_name_lists_round_trip(front, name_list_wire(last) + rest);
        assert(s =~= name_lists_wire(front) + (name_list_wire(last) + rest));
        assert(s.skip(name_lists_wire(front).len() as int) =~= name_list_wire(last) + rest);
        lemma_name_list_round_trip(last, rest);
        assert(front.push(last) =~= lists);
        assert(name_lists_parse(s, front.len()) == Ok::<(Seq<Seq<Seq<u8>>>, int), SshErrorKind>(
            (front, name_lists_wire(front).len() as int),
        ));
        assert(name_lists_parse(s, lists.len()) == Ok::<(Seq<Seq<Seq<u8>>>, int), SshErrorKind>(
            (front.push(last), (name_lists_wire(front).len() + name_list_wire(last).len()) as int),
        ));
    }
}

/// Once one name list cannot be read, reading more lists fails the same way.
pub proof fn lemma_name_lists_parse_fails(s: Seq<u8>, read: nat, count: nat)
    requires
        read < count,
        name_lists_parse(s, read) is Ok,
        name_list_parse(s.skip(name_lists_parse(s, read)->Ok_0.1)) is Err,
    ensures
        name_lists_parse(s, count) == Err::<(Seq<Seq<Seq<u8>>>, int), SshErrorKind>(
            name_list_parse(s.skip(name_lists_parse(s, read)->Ok_0.1))->Err_0,
        ),
    decreases count,
{
    if count > read + 1 {
        lemma_name_lists_parse_fails(s, read, (count - 1) as nat);
    }
}

/// Reads `count` name lists, one after the other.
pub fn read_name_lists<R: ReadExt>(reader: &mut R, count: usize) -> (r: SshResult<Vec<NameList>>)
    ensures
        old(reader).infallible() ==> final(reader).infallible(),
        is_tail_of(final(reader).remaining(), old(reader).remaining()),
        match r {
            Ok(lists) => {
                &&& name_lists_parse(old(reader).remaining(), count as nat) matches Ok(
                    (value, used),
                )
                &&& lists_of(lists@) == value
                &&& lists@.len() == count
                &&& 0 <= used <= old(reader).remaining().len()
                &&& final(reader).remaining() == old(reader).remaining().skip(used)
            },
            Err(e) => {
                ||| e.kind == SshErrorKind::IoFailure && !old(reader).infallible()
                ||| name_lists_parse(old(reader).remaining(), count as nat) == Err::<
                    (Seq<Seq<Seq<u8>>>, int),
                    SshErrorKind,
                >(e.kind)
            },
        },
{
    let ghost s = reader.remaining();
    let ghost mut used: int = 0;
    let mut lists: Vec<NameList> = Vec::new();
    let mut i: usize = 0;
    assert(reader.remaining() =~= s.skip(0));
    assert(lists_of(lists@) =~= Seq::empty());
    while i < count
        invariant
            i <= count,
            lists@.len() == i,
            s == old(reader).remaining(),
            old(reader).infallible() ==> reader.infallible(),
            0 <= used <= s.len(),
            reader.remaining() == s.skip(used),
            name_lists_parse(s, i as nat) == Ok::<(Seq<Seq<Seq<u8>>>, int), SshErrorKind>(
                (lists_of(lists@), used),
            ),
        decreases count - i,
    {
        let ghost before = lists_of(lists@);
        let ghost here = reader.remaining();
        let list = match NameList::ssh_read(reader) {
            Ok(list) => list,
            Err(e) => {
                proof {
                    lemma_tail_of_tail(reader.remaining(), here, s);
                    if name_list_parse(here) is Err {
                        lemma_name_lists_parse_fails(s, i as nat, count as nat);
                    }
                }
                return Err(e);
            },
        };
        proof {
            let more = name_list_parse(here)->Ok_0.1;
            assert(reader.remaining() =~= s.skip(used + more));
            used = used + more;
        }
        lists.push(list);
        i = i + 1;
        assert(lists_of(lists@) =~= before.push(list@));
    }
    Ok(lists)
}

/// The key exchange initiation record. The fields stand in the order in which
/// they go over the wire.
pub struct KexInit {
    pub cookie: [u8; 16],
    pub kex_algorithms: NameList,
    pub server_host_key_algorithms: NameList,
    pub encryption_algorithms_client_to_server: NameList,
    pub encryption_algorithms_server_to_client: NameList,
    pub mac_algorithms_client_to_server: NameList,
    pub mac_algorithms_server_to_client: NameList,
    pub compression_algorithms_client_to_server: NameList,
    pub compression_algorithms_server_to_client: NameList,
    pub languages_client_to_server: NameList,
    pub languages_server_to_client: NameList,
    pub first_kex_packet_follows: bool,
    pub _reserved: u32,
}

/// The number of name lists in a key exchange initiation record.
pub const KEX_INIT_NAME_LISTS: usize = 10;

/// A key exchange initiation record as plain values. The name lists stand in
/// the order of the record's fields.
pub struct KexInitView {
    pub cookie: Seq<u8>,
    pub name_lists: Seq<Seq<Seq<u8>>>,
    pub first_kex_packet_follows: bool,
    pub reserved: u32,
}

impl View for KexInit {
    type V = KexInitView;

    open spec fn view(&self) -> KexInitView {
        KexInitView {
            cookie: self.cookie@,
            name_lists: seq![
                self.kex_algorithms@,
                self.server_host_key_algorithms@,
                self.encryption_algorithms_client_to_server@,
                self.encryption_algorithms_server_to_client@,
                self.mac_algorithms_client_to_server@,
                self.mac_algorithms_server_to_client@,
                self.compression_algorithms_client_to_server@,
                self.compression_algorithms_server_to_client@,
                self.languages_client_to_server@,
                self.languages_server_to_client@,
            ],
            first_kex_packet_follows: self.first_kex_packet_follows,
            reserved: self._reserved,
        }
    }
}

/// A key exchange initiation record on the wire: each field in order.
pub open spec fn kex_init_wire(v: KexInitView) -> Seq<u8> {
    v.cookie + name_lists_wire(v.name_lists) + seq![
        if v.first_kex_packet_follows {
            1u8
        } else {
            0u8
        },
    ] + be_u32_bytes(v.reserved)
}

/// What reading a key exchange initiation record from the front of `s` gives.
/// With `strict` set, a boolean byte other than zero and one is refused.
pub open spec fn kex_init_parse(s: Seq<u8>, strict: bool) -> Result<(KexInitView, int), SshErrorKind> {
    if s.len() < 16 {
        Err(SshErrorKind::UnexpectedEndOfStream)
    } else {
        match name_lists_parse(s.skip(16), KEX_INIT_NAME_LISTS as nat) {
            Err(kind) => Err(kind),
            Ok((lists, used)) => {
                let tail = s.skip(16 + used);
                if tail.len() < 1 {
                    Err(SshErrorKind::UnexpectedEndOfStream)
                } else if strict && tail[0] > 1 {
                    Err(SshErrorKind::ProtocolViolation)
                } else if tail.len() < 5 {
                    Err(SshErrorKind::UnexpectedEndOfStream)
                } else {
                    Ok(
                        (
                            KexInitView {
                                cookie: s.take(16),
                                name_lists: lists,
                                first_kex_packet_follows: tail[0] != 0,
                                reserved: be_u32(tail.subrange(1, 5)) as u32,
                            },
                            16 + used + 5,
                        ),
                    )
                }
            },
        }
    }
}

/// Reading a record gives a cookie of sixteen bytes and ten name lists, and
/// stays within the bytes. It fails only where the bytes end too early or,
/// read strictly, on a boolean byte other than zero and one.
pub proof fn lemma_kex_init_parse_bounds(s: Seq<u8>, strict: bool)
    ensures
        kex_init_parse(s, strict) matches Ok((v, used)) ==> {
            &&& v.cookie.len() == 16
            &&& v.name_lists.len() == KEX_INIT_NAME_LISTS
            &&& 0 <= used <= s.len()
        },
        kex_init_parse(s, strict) matches Err(kind) ==> {
            ||| kind == SshErrorKind::UnexpectedEndOfStream
            ||| strict && kind == SshErrorKind::ProtocolViolation
        },
{
    if s.len() >= 16 {
        lemma_name_lists_parse_bounds(s.skip(16), KEX_INIT_NAME_LISTS as nat);
    }
}

/// A record that can be written and is canonical is read back from its own
/// bytes, strictly or not, whatever follows them.
pub proof fn lemma_kex_init_round_trip(v: KexInitView, strict: bool, rest: Seq<u8>)
    requires
        v.cookie.len() == 16,
        v.name_lists.len() == KEX_INIT_NAME_LISTS,
        name_lists_encodable(v.name_lists),
        name_lists_canonical(v.name_lists),
    ensures
        kex_init_parse(kex_init_wire(v) + rest, strict) == Ok::<(KexInitView, int), SshErrorKind>(
            (v, kex_init_wire(v).len() as int),
        ),
{
    let s = kex_init_wire(v) + rest;
    let lists = name_lists_wire(v.name_lists);
    let flag = seq![
        if v.first_kex_packet_follows {
            1u8
        } else {
            0u8
        },
    ];
    let end = flag + be_u32_bytes(v.reserved) + rest;
    assert(s.take(16) =~= v.cookie);
    assert(s.skip(16) =~= lists + end);
    lemma_name_lists_round_trip(v.name_lists, end);
    let tail = s.skip(16 + lists.len() as int);
    assert(tail =~= end);
    lemma_be_u32_round_trip(v.reserved, be_u32_bytes(v.reserved));
    assert(tail.subrange(1, 5) =~= be_u32_bytes(v.reserved));
}

impl KexInit {
    /// The record's name lists, in the order of the fields.
    pub fn name_lists(&self) -> (lists: [&NameList; 10])
        ensures
            forall|i: int| 0 <= i < KEX_INIT_NAME_LISTS ==> (#[trigger] lists@[i])@ == self@.name_lists[i],
    {
        [
            &self.kex_algorithms,
            &self.server_host_key_algorithms,
            &self.encryption_algorithms_client_to_server,
            &self.encryption_algorithms_server_to_client,
            &self.mac_algorithms_client_to_server,
            &self.mac_algorithms_server_to_client,
            &self.compression_algorithms_client_to_server,
            &self.compression_algorithms_server_to_client,
            &self.languages_client_to_server,
            &self.languages_server_to_client,
        ]
    }

    /// Reads a record from the front of the source. With `strict` set, a
    /// boolean byte other than zero and one is refused.
    pub fn read_with<R: ReadExt>(reader: &mut R, strict: bool) -> (r: SshResult<KexInit>)
        ensures
            old(reader).infallible() ==> final(reader).infallible(),
            is_tail_of(final(reader).remaining(), old(reader).remaining()),
            match r {
                Ok(item) => {
                    &&& kex_init_parse(old(reader).remaining(), strict) matches Ok((value, used))
                    &&& item@ == value
                    &&& 0 <= used <= old(reader).remaining().len()
                    &&& final(reader).remaining() == old(reader).remaining().skip(used)
                },
                Err(e) => {
                    ||| e.kind == SshErrorKind::IoFailure && !old(reader).infallible()
                    ||| kex_init_parse(old(reader).remaining(), strict) == Err::<
                        (KexInitView, int),
                        SshErrorKind,
                    >(e.kind)
                },
            },
    {
        let ghost s = reader.remaining();
        let cookie = <[u8; 16]>::ssh_read(reader)?;
        let ghost after_cookie = reader.remaining();
        let mut lists = match read_name_lists(reader, KEX_INIT_NAME_LISTS) {
            Ok(lists) => lists,
            Err(e) => {
                proof {
                    lemma_tail_of_tail(reader.remaining(), after_cookie, s);
                }
                return Err(e);
            },
        };
        let ghost parsed = lists_of(lists@);
        let ghost used = name_lists_parse(after_cookie, KEX_INIT_NAME_LISTS as nat)->Ok_0.1;
        proof {
            lemma_name_lists_parse_bounds(after_cookie, KEX_INIT_NAME_LISTS as nat);
            assert(reader.remaining() =~= s.skip(16 + used));
        }
        let ghost tail = reader.remaining();
        let byte = match reader.read_u8() {
            Ok(byte) => byte,
            Err(e) => {
                proof {
                    lemma_tail_of_tail(reader.remaining(), tail, s);
                }
                return Err(e);
            },
        };
        proof {
            assert(reader.remaining() =~= s.skip(16 + used + 1));
        }
        let first_kex_packet_follows = decode_bool(byte, strict)?;
        let ghost after_flag = reader.remaining();
        let reserved = match reader.read_be_u32() {
            Ok(reserved) => reserved,
            Err(e) => {
                proof {
                    lemma_tail_of_tail(reader.remaining(), after_flag, s);
                }
                return Err(e);
            },
        };
        proof {
            assert(after_flag.take(4) =~= tail.subrange(1, 5));
            assert(reader.remaining() =~= s.skip(16 + used + 5));
        }
        let languages_server_to_client = lists.pop().unwrap();
        let languages_client_to_server = lists.pop().unwrap();
        let compression_algorithms_server_to_client = lists.pop().unwrap();
        let compression_algorithms_client_to_server = lists.pop().unwrap();
        let mac_algorithms_server_to_client = lists.pop().unwrap();
        let mac_algorithms_client_to_server = lists.pop().unwrap();
        let encryption_algorithms_server_to_client = lists.pop().unwrap();
        let encryption_algorithms_client_to_server = lists.pop().unwrap();
        let server_host_key_algorithms = lists.pop().unwrap();
        let kex_algorithms = lists.pop().unwrap();
        let item = KexInit {
            cookie,
            kex_algorithms,
            server_host_key_algorithms,
            encryption_algorithms_client_to_server,
            encryption_algorithms_server_to_client,
            mac_algorithms_client_to_server,
            mac_algorithms_server_to_client,
            compression_algorithms_client_to_server,
            compression_algorithms_server_to_client,
            languages_client_to_server,
            languages_server_to_client,
            first_kex_packet_follows,
            _reserved: reserved,
        };
        assert(item@.name_lists =~= parsed);
        Ok(item)
    }
}

impl SshItem for KexInit {
    open spec fn wire(&self) -> Seq<u8> {
        kex_init_wire(self@)
    }

    open spec fn encodable(&self) -> bool {
        name_lists_encodable(self@.name_lists)
    }

    open spec fn canonical(&self) -> bool {
        name_lists_canonical(self@.name_lists)
    }

    open spec fn parse(s: Seq<u8>) -> Result<(KexInitView, int), SshErrorKind> {
        kex_init_parse(s, false)
    }

    proof fn lemma_round_trip(&self, rest: Seq<u8>) {
        lemma_kex_init_round_trip(self@, false, rest);
    }

    fn ssh_write<W: WriteExt>(&self, writer: &mut W) -> (r: SshResult<()>) {
        let ghost all = self@.name_lists;
        let lists = self.name_lists();
        let mut bytes: Vec<u8> = Vec::new();
        append(&self.cookie, &mut bytes)?;
        assert(bytes@ =~= self.cookie@ + name_lists_wire(all.take(0)));
        let mut i: usize = 0;
        while i < KEX_INIT_NAME_LISTS
            invariant
                i <= KEX_INIT_NAME_LISTS,
                all == self@.name_lists,
                old(writer).infallible() ==> writer.infallible(),
                writer.written() == old(writer).written(),
                forall|j: int| 0 <= j < KEX_INIT_NAME_LISTS ==> (#[trigger] lists@[j])@ == all[j],
                forall|j: int| 0 <= j < i ==> name_list_encodable(#[trigger] all[j]),
                bytes@ == self.cookie@ + name_lists_wire(all.take(i as int)),
            decreases KEX_INIT_NAME_LISTS - i,
        {
            let ghost before = bytes@;
            proof {
                lemma_name_lists_wire_step(all, i as int);
                assert(lists@[i as int]@ == all[i as int]);
            }
            append(lists[i], &mut bytes)?;
            assert(bytes@ =~= self.cookie@ + name_lists_wire(all.take(i + 1)));
            i = i + 1;
        }
        assert(all.take(KEX_INIT_NAME_LISTS as int) =~= all);
        append(&self.first_kex_packet_follows, &mut bytes)?;
        append(&self._reserved, &mut bytes)?;
        assert(bytes@ =~= self.wire());
        writer.write_all(bytes.as_slice())
    }

    fn ssh_read<R: ReadExt>(reader: &mut R) -> (r: SshResult<KexInit>) {
        KexInit::read_with(reader, false)
    }

    fn ssh_size(&self) -> (n: u64) {
        let ghost all = self@.name_lists;
        let lists = self.name_lists();
        let mut n: u64 = 16;
        let mut i: usize = 0;
        assert(name_lists_wire(all.take(0)).len() == 0);
        while i < KEX_INIT_NAME_LISTS
            invariant
                i <= KEX_INIT_NAME_LISTS,
                all == self@.name_lists,
                forall|j: int| 0 <= j < KEX_INIT_NAME_LISTS ==> (#[trigger] lists@[j])@ == all[j],
                n == saturated(16 + name_lists_wire(all.take(i as int)).len()),
            decreases KEX_INIT_NAME_LISTS - i,
        {
            proof {
                lemma_name_lists_wire_step(all, i as int);
                assert(lists@[i as int]@ == all[i as int]);
            }
            n = n.saturating_add(lists[i].ssh_size());
            i = i + 1;
        }
        assert(all.take(KEX_INIT_NAME_LISTS as int) =~= all);
        n.saturating_add(5)
    }
}

/// The tag that opens a key exchange initiation message.
pub const KEX_INIT_TAG: u8 = 20;

/// A message: a tag of one byte, then the record that the tag names.
pub enum Message {
    KexInitMsg(KexInit),
}

/// A message as plain values.
pub enum MessageView {
    KexInitMsg(KexInitView),
}

impl View for Message {
    type V = MessageView;

    open spec fn view(&self) -> MessageView {
        match self {
            Message::KexInitMsg(body) => MessageView::KexInitMsg(body@),
        }
    }
}

/// A message on the wire: its tag, then its record.
pub open spec fn message_wire(v: MessageView) -> Seq<u8> {
    match v {
        MessageView::KexInitMsg(body) => seq![KEX_INIT_TAG] + kex_init_wire(body),
    }
}

/// What reading a message from the front of `s` gives. A tag that names no
/// message is refused, and nothing behind it is looked at.
pub open spec fn message_parse(s: Seq<u8>, strict: bool) -> Result<(MessageView, int), SshErrorKind> {
    if s.len() < 1 {
        Err(SshErrorKind::UnexpectedEndOfStream)
    } else if s[0] != KEX_INIT_TAG {
        Err(SshErrorKind::UnknownMessageTag)
    } else {
        match kex_init_parse(s.skip(1), strict) {
            Err(kind) => Err(kind),
            Ok((body, used)) => Ok((MessageView::KexInitMsg(body), 1 + used)),
        }
    }
}

/// Bytes that begin with anything but a known tag are refused as a message,
/// whatever follows the tag.
pub proof fn lemma_unknown_tag_refused(s: Seq<u8>, strict: bool)
    requires
        s.len() >= 1,
        s[0] != KEX_INIT_TAG,
    ensures
        message_parse(s, strict) == Err::<(MessageView, int), SshErrorKind>(
            SshErrorKind::UnknownMessageTag,
        ),
{
}

impl Message {
    /// Reads a message from the front of the source. With `strict` set, a
    /// boolean byte other than zero and one is refused.
    ///
    /// Of a message with an unknown tag, the tag is the only byte taken.
    pub fn read_with<R: ReadExt>(reader: &mut R, strict: bool) -> (r: SshResult<Message>)
        ensures
            old(reader).infallible() ==> final(reader).infallible(),
            is_tail_of(final(reader).remaining(), old(reader).remaining()),
            match r {
                Ok(item) => {
                    &&& message_parse(old(reader).remaining(), strict) matches Ok((value, used))
                    &&& item@ == value
                    &&& 0 <= used <= old(reader).remaining().len()
                    &&& final(reader).remaining() == old(reader).remaining().skip(used)
                },
                Err(e) => {
                    &&& {
                        ||| e.kind == SshErrorKind::IoFailure && !old(reader).infallible()
                        ||| message_parse(old(reader).remaining(), strict) == Err::<
                            (MessageView, int),
                            SshErrorKind,
                        >(e.kind)
                    }
                    &&& e.kind == SshErrorKind::UnknownMessageTag ==> final(reader).remaining()
                        == old(reader).remaining().skip(1)
                },
            },
    {
        let ghost s = reader.remaining();
        let tag = reader.read_u8()?;
        let ghost after_tag = reader.remaining();
        proof {
            lemma_kex_init_parse_bounds(after_tag, strict);
        }
        if tag == KEX_INIT_TAG {
            let body = match KexInit::read_with(reader, strict) {
                Ok(body) => body,
                Err(e) => {
                    proof {
                        lemma_tail_of_tail(reader.remaining(), after_tag, s);
                    }
                    return Err(e);
                },
            };
            proof {
                let used = kex_init_parse(after_tag, strict)->Ok_0.1;
                assert(reader.remaining() =~= s.skip(1 + used));
            }
            return Ok(Message::KexInitMsg(body));
        }
        SshError::new(SshErrorKind::UnknownMessageTag, "message with an unknown tag".to_string())
    }

    /// Reads the message that a packet's payload begins with. Bytes behind
    /// the message are not looked at. With `strict` set, a boolean byte other
    /// than zero and one is refused.
    pub fn from_payload(payload: &[u8], strict: bool) -> (r: SshResult<Message>)
        ensures
            match r {
                Ok(item) => message_parse(payload@, strict) matches Ok((value, used)) && item@
                    == value,
                Err(e) => message_parse(payload@, strict) == Err::<
                    (MessageView, int),
                    SshErrorKind,
                >(e.kind),
            },
    {
        let mut source = MemorySource::new(slice_to_vec(payload));
        Message::read_with(&mut source, strict)
    }

    /// The payload of the packet that carries the message.
    pub fn to_payload(&self) -> (r: SshResult<Vec<u8>>)
        ensures
            match r {
                Ok(payload) => self.encodable() && payload@ == self.wire(),
                Err(e) => !self.encodable() && e.kind == SshErrorKind::UnsupportedOperation,
            },
    {
        let mut payload: Vec<u8> = Vec::new();
        append(self, &mut payload)?;
        Ok(payload)
    }
}

impl SshItem for Message {
    open spec fn wire(&self) -> Seq<u8> {
        message_wire(self@)
    }

    open spec fn encodable(&self) -> bool {
        match self {
            Message::KexInitMsg(body) => body.encodable(),
        }
    }

    open spec fn canonical(&self) -> bool {
        match self {
            Message::KexInitMsg(body) => body.canonical(),
        }
    }

    open spec fn parse(s: Seq<u8>) -> Result<(MessageView, int), SshErrorKind> {
        message_parse(s, false)
    }

    proof fn lemma_round_trip(&self, rest: Seq<u8>) {
        match self {
            Message::KexInitMsg(body) => {
                let s = self.wire() + rest;
                assert(s.skip(1) =~= body.wire() + rest);
                body.lemma_round_trip(rest);
            },
        }
    }

    fn ssh_write<W: WriteExt>(&self, writer: &mut W) -> (r: SshResult<()>) {
        let mut bytes: Vec<u8> = Vec::new();
        match self {
            Message::KexInitMsg(body) => {
                bytes.push(KEX_INIT_TAG);
                append(body, &mut bytes)?;
            },
        }
        assert(bytes@ =~= self.wire());
        writer.write_all(bytes.as_slice())
    }

    /// Of a message with an unknown tag, the tag is the only byte taken.
    fn ssh_read<R: ReadExt>(reader: &mut R) -> (r: SshResult<Message>)
        ensures
            r matches Err(e) && e.kind == SshErrorKind::UnknownMessageTag ==> final(reader).remaining()
                == old(reader).remaining().skip(1),
    {
        Message::read_with(reader, false)
    }

    fn ssh_size(&self) -> (n: u64) {
        match self {
            Message::KexInitMsg(body) => body.ssh_size().saturating_add(1),
        }
    }
}

} // verus!
