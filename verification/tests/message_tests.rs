use kissshot::catalog::{read_name_lists, KexInit, Message};
use kissshot::message::{decode_bool, NameList, SshItem};
use kissshot::names::{join_names, joined_len, split_names};
use kissshot::util::{MemorySource, ReadExt};
use kissshot::SshErrorKind;

fn names(list: &[&str]) -> NameList {
    NameList(list.iter().map(|s| s.as_bytes().to_vec()).collect())
}

fn sample_kex_init() -> KexInit {
    KexInit {
        cookie: [0, 1, 2, 3, 4, 5, 6, 7, 8, 9, 10, 11, 12, 13, 14, 15],
        kex_algorithms: names(&["curve25519-sha256", "diffie-hellman-group14-sha1"]),
        server_host_key_algorithms: names(&["ssh-ed25519"]),
        encryption_algorithms_client_to_server: names(&["aes128-ctr", "aes256-ctr"]),
        encryption_algorithms_server_to_client: names(&["aes128-ctr"]),
        mac_algorithms_client_to_server: names(&["hmac-sha2-256"]),
        mac_algorithms_server_to_client: names(&["hmac-sha2-256", "hmac-sha1"]),
        compression_algorithms_client_to_server: names(&["none"]),
        compression_algorithms_server_to_client: names(&["none", "zlib"]),
        languages_client_to_server: names(&[""]),
        languages_server_to_client: names(&[""]),
        first_kex_packet_follows: true,
        _reserved: 0x0a0b_0c0d,
    }
}

fn lists_of(k: &KexInit) -> Vec<Vec<Vec<u8>>> {
    k.name_lists().iter().map(|l| l.0.clone()).collect()
}

fn same_kex_init(a: &KexInit, b: &KexInit) -> bool {
    a.cookie == b.cookie
        && lists_of(a) == lists_of(b)
        && a.first_kex_packet_follows == b.first_kex_packet_follows
        && a._reserved == b._reserved
}

#[test]
fn split_names_cuts_at_commas() {
    assert_eq!(split_names(b"a,bc,def"), vec![b"a".to_vec(), b"bc".to_vec(), b"def".to_vec()]);
    assert_eq!(split_names(b"none"), vec![b"none".to_vec()]);
    assert_eq!(split_names(b""), vec![Vec::<u8>::new()]);
    assert_eq!(split_names(b","), vec![Vec::<u8>::new(), Vec::new()]);
    assert_eq!(split_names(b",a,,"), vec![vec![], b"a".to_vec(), vec![], vec![]]);
}

#[test]
fn split_names_agrees_with_std() {
    let blobs: [&[u8]; 6] = [b"", b",", b"a", b"a,b", b",,x,,", b"zlib@openssh.com,none"];
    for blob in blobs {
        let expected: Vec<Vec<u8>> = blob.split(|c| *c == b',').map(|s| s.to_vec()).collect();
        assert_eq!(split_names(blob), expected);
    }
}

#[test]
fn join_names_puts_commas_between() {
    assert_eq!(join_names(&vec![b"a".to_vec(), b"bc".to_vec(), b"def".to_vec()]), b"a,bc,def");
    assert_eq!(join_names(&vec![b"none".to_vec()]), b"none");
    assert_eq!(join_names(&vec![]), b"");
    assert_eq!(join_names(&vec![vec![]]), b"");
    assert_eq!(join_names(&vec![vec![], vec![]]), b",");
    assert_eq!(joined_len(&vec![b"a".to_vec(), b"bc".to_vec(), b"def".to_vec()]), 8);
    assert_eq!(joined_len(&vec![]), 0);
    assert_eq!(joined_len(&vec![vec![], vec![]]), 1);
}

#[test]
fn name_list_wire_format() {
    let list = names(&["aes128-ctr", "none"]);
    let mut sink: Vec<u8> = Vec::new();
    list.ssh_write(&mut sink).unwrap();
    assert_eq!(sink, b"\x00\x00\x00\x0faes128-ctr,none".to_vec());
    assert_eq!(list.ssh_size(), 19);
    let mut source = MemorySource::new(sink);
    let read = NameList::ssh_read(&mut source).unwrap();
    assert_eq!(read.0, list.0);
}

#[test]
fn name_list_round_trip() {
    let lists = [
        names(&[""]),
        names(&["a"]),
        names(&["a", "b"]),
        names(&["", "", ""]),
        names(&["curve25519-sha256", "", "x"]),
    ];
    for list in lists {
        let mut sink: Vec<u8> = Vec::new();
        list.ssh_write(&mut sink).unwrap();
        assert_eq!(sink.len() as u64, list.ssh_size());
        sink.extend_from_slice(b"rest");
        let mut source = MemorySource::with_chunk_len(sink, 3);
        assert_eq!(NameList::ssh_read(&mut source).unwrap().0, list.0);
        assert_eq!(source.read_exact_to_vec(4).unwrap(), b"rest".to_vec());
    }
}

#[test]
fn empty_blob_is_one_empty_name() {
    let mut source = MemorySource::new(vec![0, 0, 0, 0]);
    let list = NameList::ssh_read(&mut source).unwrap();
    assert_eq!(list.0, vec![Vec::<u8>::new()]);
    let mut sink: Vec<u8> = Vec::new();
    list.ssh_write(&mut sink).unwrap();
    assert_eq!(sink, vec![0, 0, 0, 0]);
}

#[test]
fn list_without_names_reads_back_as_one_empty_name() {
    let mut sink: Vec<u8> = Vec::new();
    NameList(Vec::new()).ssh_write(&mut sink).unwrap();
    assert_eq!(sink, vec![0, 0, 0, 0]);
    assert_eq!(NameList(Vec::new()).ssh_size(), 4);
    let mut source = MemorySource::new(sink);
    assert_eq!(NameList::ssh_read(&mut source).unwrap().0, vec![Vec::<u8>::new()]);
}

#[test]
fn name_with_comma_reads_back_as_two_names() {
    let mut sink: Vec<u8> = Vec::new();
    names(&["a,b"]).ssh_write(&mut sink).unwrap();
    let mut source = MemorySource::new(sink);
    assert_eq!(NameList::ssh_read(&mut source).unwrap().0, names(&["a", "b"]).0);
}

#[test]
fn name_list_cut_short() {
    let mut source = MemorySource::new(b"\x00\x00\x00".to_vec());
    assert_eq!(
        NameList::ssh_read(&mut source).err().unwrap().kind,
        SshErrorKind::UnexpectedEndOfStream
    );
    let mut source = MemorySource::new(b"\x00\x00\x00\x05none".to_vec());
    assert_eq!(
        NameList::ssh_read(&mut source).err().unwrap().kind,
        SshErrorKind::UnexpectedEndOfStream
    );
}

#[test]
fn integers_as_items() {
    let mut sink: Vec<u8> = Vec::new();
    0xabu8.ssh_write(&mut sink).unwrap();
    0x1234u16.ssh_write(&mut sink).unwrap();
    0x0102_0304u32.ssh_write(&mut sink).unwrap();
    0x0102_0304_0506_0708u64.ssh_write(&mut sink).unwrap();
    assert_eq!(sink, vec![0xab, 0x12, 0x34, 1, 2, 3, 4, 1, 2, 3, 4, 5, 6, 7, 8]);
    assert_eq!(0xabu8.ssh_size(), 1);
    assert_eq!(0x1234u16.ssh_size(), 2);
    assert_eq!(0x0102_0304u32.ssh_size(), 4);
    assert_eq!(0x0102_0304_0506_0708u64.ssh_size(), 8);
    let mut source = MemorySource::with_chunk_len(sink, 2);
    assert_eq!(u8::ssh_read(&mut source).unwrap(), 0xab);
    assert_eq!(u16::ssh_read(&mut source).unwrap(), 0x1234);
    assert_eq!(u32::ssh_read(&mut source).unwrap(), 0x0102_0304);
    assert_eq!(u64::ssh_read(&mut source).unwrap(), 0x0102_0304_0506_0708);
    assert_eq!(u8::ssh_read(&mut source).unwrap_err().kind, SshErrorKind::UnexpectedEndOfStream);
}

#[test]
fn bool_is_one_byte() {
    let mut sink: Vec<u8> = Vec::new();
    true.ssh_write(&mut sink).unwrap();
    false.ssh_write(&mut sink).unwrap();
    assert_eq!(sink, vec![1, 0]);
    assert_eq!(true.ssh_size(), 1);
    let mut source = MemorySource::new(vec![0, 1, 2, 255]);
    assert_eq!(bool::ssh_read(&mut source).unwrap(), false);
    assert_eq!(bool::ssh_read(&mut source).unwrap(), true);
    assert_eq!(bool::ssh_read(&mut source).unwrap(), true);
    assert_eq!(bool::ssh_read(&mut source).unwrap(), true);
    assert_eq!(bool::ssh_read(&mut source).unwrap_err().kind, SshErrorKind::UnexpectedEndOfStream);
}

#[test]
fn strict_bool_refuses_other_bytes() {
    assert_eq!(decode_bool(0, true).unwrap(), false);
    assert_eq!(decode_bool(1, true).unwrap(), true);
    assert_eq!(decode_bool(2, true).unwrap_err().kind, SshErrorKind::ProtocolViolation);
    assert_eq!(decode_bool(255, true).unwrap_err().kind, SshErrorKind::ProtocolViolation);
    assert_eq!(decode_bool(0, false).unwrap(), false);
    assert_eq!(decode_bool(1, false).unwrap(), true);
    assert_eq!(decode_bool(2, false).unwrap(), true);
    assert_eq!(decode_bool(255, false).unwrap(), true);
}

#[test]
fn byte_block_is_copied() {
    let block: [u8; 16] = [9, 8, 7, 6, 5, 4, 3, 2, 1, 0, 1, 2, 3, 4, 5, 6];
    let mut sink: Vec<u8> = Vec::new();
    block.ssh_write(&mut sink).unwrap();
    assert_eq!(sink, block.to_vec());
    assert_eq!(block.ssh_size(), 16);
    let mut source = MemorySource::with_chunk_len(sink, 5);
    assert_eq!(<[u8; 16]>::ssh_read(&mut source).unwrap(), block);
    let mut source = MemorySource::new(vec![0; 15]);
    assert_eq!(
        <[u8; 16]>::ssh_read(&mut source).unwrap_err().kind,
        SshErrorKind::UnexpectedEndOfStream
    );
}

#[test]
fn read_name_lists_reads_in_order() {
    let mut source = MemorySource::new(b"\x00\x00\x00\x01a\x00\x00\x00\x03b,c\x00\x00\x00\x00!".to_vec());
    let lists = read_name_lists(&mut source, 3).unwrap();
    assert_eq!(lists.len(), 3);
    assert_eq!(lists[0].0, names(&["a"]).0);
    assert_eq!(lists[1].0, names(&["b", "c"]).0);
    assert_eq!(lists[2].0, names(&[""]).0);
    assert_eq!(read_name_lists(&mut source, 0).unwrap().len(), 0);
    assert_eq!(
        read_name_lists(&mut source, 1).err().unwrap().kind,
        SshErrorKind::UnexpectedEndOfStream
    );
}

#[test]
fn kex_init_wire_format() {
    let kex_init = KexInit {
        cookie: [0xc0; 16],
        kex_algorithms: names(&["k"]),
        server_host_key_algorithms: names(&["h"]),
        encryption_algorithms_client_to_server: names(&["e1"]),
        encryption_algorithms_server_to_client: names(&["e2"]),
        mac_algorithms_client_to_server: names(&["m1"]),
        mac_algorithms_server_to_client: names(&["m2"]),
        compression_algorithms_client_to_server: names(&["c1", "c2"]),
        compression_algorithms_server_to_client: names(&["none"]),
        languages_client_to_server: names(&[""]),
        languages_server_to_client: names(&[""]),
        first_kex_packet_follows: false,
        _reserved: 0,
    };
    let mut expected = vec![0xc0; 16];
    expected.extend_from_slice(b"\x00\x00\x00\x01k\x00\x00\x00\x01h");
    expected.extend_from_slice(b"\x00\x00\x00\x02e1\x00\x00\x00\x02e2");
    expected.extend_from_slice(b"\x00\x00\x00\x02m1\x00\x00\x00\x02m2");
    expected.extend_from_slice(b"\x00\x00\x00\x05c1,c2\x00\x00\x00\x04none");
    expected.extend_from_slice(b"\x00\x00\x00\x00\x00\x00\x00\x00");
    expected.extend_from_slice(b"\x00\x00\x00\x00\x00");
    let mut sink: Vec<u8> = Vec::new();
    kex_init.ssh_write(&mut sink).unwrap();
    assert_eq!(sink, expected);
    assert_eq!(kex_init.ssh_size(), expected.len() as u64);
}

#[test]
fn kex_init_round_trip() {
    let kex_init = sample_kex_init();
    let mut sink: Vec<u8> = Vec::new();
    kex_init.ssh_write(&mut sink).unwrap();
    assert_eq!(sink.len() as u64, kex_init.ssh_size());
    for chunk_len in [0, 1, 5, 1000] {
        let mut source = MemorySource::with_chunk_len(sink.clone(), chunk_len);
        let read = KexInit::ssh_read(&mut source).unwrap();
        assert!(same_kex_init(&read, &kex_init));
        assert_eq!(read.kex_algorithms.0, kex_init.kex_algorithms.0);
        assert_eq!(read.languages_server_to_client.0, vec![Vec::<u8>::new()]);
        assert_eq!(source.read_chunk(1).unwrap(), Vec::<u8>::new());
    }
}

#[test]
fn kex_init_cut_short_anywhere() {
    let mut sink: Vec<u8> = Vec::new();
    sample_kex_init().ssh_write(&mut sink).unwrap();
    for len in 0..sink.len() {
        let mut source = MemorySource::new(sink[..len].to_vec());
        let err = KexInit::ssh_read(&mut source).err().unwrap();
        assert_eq!(err.kind, SshErrorKind::UnexpectedEndOfStream);
    }
}

#[test]
fn kex_init_strict_reading() {
    let mut sink: Vec<u8> = Vec::new();
    sample_kex_init().ssh_write(&mut sink).unwrap();
    let flag = sink.len() - 5;
    assert_eq!(sink[flag], 1);
    sink[flag] = 2;
    let mut source = MemorySource::new(sink.clone());
    assert!(KexInit::read_with(&mut source, false).unwrap().first_kex_packet_follows);
    let mut source = MemorySource::new(sink.clone());
    let err = KexInit::read_with(&mut source, true).err().unwrap();
    assert_eq!(err.kind, SshErrorKind::ProtocolViolation);
    sink[flag] = 0;
    let mut source = MemorySource::new(sink);
    assert!(!KexInit::read_with(&mut source, true).unwrap().first_kex_packet_follows);
}

#[test]
fn message_round_trip() {
    let message = Message::KexInitMsg(sample_kex_init());
    let payload = message.to_payload().unwrap();
    assert_eq!(payload[0], 20);
    assert_eq!(payload.len() as u64, message.ssh_size());
    let mut body: Vec<u8> = Vec::new();
    sample_kex_init().ssh_write(&mut body).unwrap();
    assert_eq!(&payload[1..], &body[..]);
    let mut sink: Vec<u8> = Vec::new();
    message.ssh_write(&mut sink).unwrap();
    assert_eq!(sink, payload);
    match Message::from_payload(&payload, false).unwrap() {
        Message::KexInitMsg(read) => assert!(same_kex_init(&read, &sample_kex_init())),
    }
}

#[test]
fn unknown_tag_is_refused() {
    let mut bytes = vec![99u8];
    let mut body: Vec<u8> = Vec::new();
    sample_kex_init().ssh_write(&mut body).unwrap();
    bytes.extend_from_slice(&body);
    let mut source = MemorySource::new(bytes);
    let err = Message::ssh_read(&mut source).err().unwrap();
    assert_eq!(err.kind, SshErrorKind::UnknownMessageTag);
    assert_eq!(source.read_exact_to_vec(body.len()).unwrap(), body);
    for tag in [0u8, 1, 19, 21, 99, 255] {
        let err = Message::from_payload(&[tag, 1, 2, 3], true).err().unwrap();
        assert_eq!(err.kind, SshErrorKind::UnknownMessageTag);
        let err = Message::from_payload(&[tag], false).err().unwrap();
        assert_eq!(err.kind, SshErrorKind::UnknownMessageTag);
    }
}

#[test]
fn empty_payload_is_end_of_stream() {
    let err = Message::from_payload(&[], false).err().unwrap();
    assert_eq!(err.kind, SshErrorKind::UnexpectedEndOfStream);
    let err = Message::from_payload(&[20, 0, 0], false).err().unwrap();
    assert_eq!(err.kind, SshErrorKind::UnexpectedEndOfStream);
}

#[test]
fn strict_payload_reading() {
    let mut payload = Message::KexInitMsg(sample_kex_init()).to_payload().unwrap();
    let flag = payload.len() - 5;
    payload[flag] = 9;
    let err = Message::from_payload(&payload, true).err().unwrap();
    assert_eq!(err.kind, SshErrorKind::ProtocolViolation);
    let Message::KexInitMsg(read) = Message::from_payload(&payload, false).unwrap();
    assert!(read.first_kex_packet_follows);
    payload.extend_from_slice(b"ignored");
    assert!(Message::from_payload(&payload, false).is_ok());
}

#[test]
fn item_read_passes_a_failure_on() {
    let mut sink: Vec<u8> = Vec::new();
    sample_kex_init().ssh_write(&mut sink).unwrap();
    let mut source = MemorySource::failing_after(sink, 40);
    assert_eq!(KexInit::ssh_read(&mut source).err().unwrap().kind, SshErrorKind::IoFailure);
}
