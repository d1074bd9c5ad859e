use kissshot::client::{identification_line, is_version_line, MAX_DISCARDED_LINES};
use kissshot::catalog::Message;
use kissshot::message::SshItem;
use kissshot::packet::encode_packet;
use kissshot::util::MemorySource;
use kissshot::{Client, HandshakeState, SshErrorKind};

const ID: &[u8] = b"SSH-2.0-kissshot Acerola-Orion Heart-Under-Blade\r\n";

fn client_on(input: &[u8]) -> Client<MemorySource, Vec<u8>> {
    Client::new(MemorySource::new(input.to_vec()), Vec::new())
}

#[test]
fn identification_line_is_fixed() {
    assert_eq!(&identification_line()[..], ID);
}

#[test]
fn version_lines_begin_with_ssh() {
    assert!(is_version_line(b"SSH-2.0-OpenSSH_1.0\r\n"));
    assert!(is_version_line(b"SSH\r\n"));
    assert!(is_version_line(b"SSHx"));
    assert!(!is_version_line(b"SSH"));
    assert!(!is_version_line(b"ssh-2.0\r\n"));
    assert!(!is_version_line(b" SSH-2.0\r\n"));
    assert!(!is_version_line(b"garbage\r\n"));
    assert!(!is_version_line(b"\r\n"));
    assert!(!is_version_line(b""));
}

#[test]
fn new_client_has_exchanged_nothing() {
    let client = client_on(b"");
    assert_eq!(client.state, HandshakeState::Start);
    assert_eq!(client.discarded, 0);
    assert_eq!(client.peer_version, None);
    assert!(!client.is_exchanged());
}

#[test]
fn connect_discards_garbage_line() {
    let mut client = client_on(b"garbage\r\nSSH-2.0-OpenSSH_1.0\r\n");
    client.connect().unwrap();
    assert_eq!(client.peer_version, Some(b"SSH-2.0-OpenSSH_1.0".to_vec()));
    assert_eq!(client.state, HandshakeState::VersionReceived);
    assert_eq!(client.discarded, 1);
    assert!(client.is_exchanged());
    assert_eq!(client.writer.take_written(), ID.to_vec());
}

#[test]
fn connect_leaves_what_follows_the_version() {
    let mut client = client_on(b"SSH-2.0-peer\r\nnext\r\n");
    client.connect().unwrap();
    assert_eq!(client.peer_version, Some(b"SSH-2.0-peer".to_vec()));
    assert_eq!(client.discarded, 0);
    assert_eq!(client.reader.read_line().unwrap(), b"next\r\n".to_vec());
}

#[test]
fn connect_twice_does_nothing_more() {
    let mut client = client_on(b"SSH-2.0-peer\r\nSSH-2.0-other\r\n");
    client.connect().unwrap();
    client.connect().unwrap();
    assert_eq!(client.peer_version, Some(b"SSH-2.0-peer".to_vec()));
    assert_eq!(client.writer.take_written(), ID.to_vec());
    assert_eq!(client.reader.read_line().unwrap(), b"SSH-2.0-other\r\n".to_vec());
}

#[test]
fn connect_fails_when_the_stream_ends() {
    let mut client = client_on(b"hello\r\nSSH-2.0-pe");
    let err = client.connect().unwrap_err();
    assert_eq!(err.kind, SshErrorKind::UnexpectedEndOfStream);
    assert_eq!(client.state, HandshakeState::VersionSent);
    assert_eq!(client.discarded, 1);
    assert_eq!(client.peer_version, None);
    assert_eq!(client.writer.take_written(), ID.to_vec());
}

#[test]
fn connect_goes_on_after_more_bytes_came() {
    let mut client = client_on(b"");
    assert_eq!(client.connect().unwrap_err().kind, SshErrorKind::UnexpectedEndOfStream);
    assert_eq!(client.writer.take_written(), ID.to_vec());
    client.reader.feed(b"welcome\r\nSSH-");
    assert_eq!(client.connect().unwrap_err().kind, SshErrorKind::UnexpectedEndOfStream);
    assert_eq!(client.discarded, 1);
    client.reader.feed(b"2.0-late\r");
    assert_eq!(client.connect().unwrap_err().kind, SshErrorKind::UnexpectedEndOfStream);
    client.reader.feed(b"\n");
    client.connect().unwrap();
    assert_eq!(client.peer_version, Some(b"SSH-2.0-late".to_vec()));
    assert_eq!(client.discarded, 1);
    assert_eq!(client.writer.take_written(), Vec::<u8>::new());
}

#[test]
fn connect_allows_the_most_discarded_lines() {
    let mut input = Vec::new();
    for _ in 0..MAX_DISCARDED_LINES {
        input.extend_from_slice(b"x\r\n");
    }
    input.extend_from_slice(b"SSH-2.0-peer\r\n");
    let mut client = client_on(&input);
    client.connect().unwrap();
    assert_eq!(client.discarded, MAX_DISCARDED_LINES);
    assert_eq!(client.peer_version, Some(b"SSH-2.0-peer".to_vec()));
}

#[test]
fn connect_refuses_too_many_lines() {
    let mut input = Vec::new();
    for _ in 0..MAX_DISCARDED_LINES + 1 {
        input.extend_from_slice(b"x\r\n");
    }
    input.extend_from_slice(b"SSH-2.0-peer\r\n");
    let mut client = client_on(&input);
    let err = client.connect().unwrap_err();
    assert_eq!(err.kind, SshErrorKind::ProtocolViolation);
    assert_eq!(client.state, HandshakeState::VersionSent);
    assert_eq!(client.discarded, MAX_DISCARDED_LINES + 1);
    assert_eq!(client.connect().unwrap_err().kind, SshErrorKind::ProtocolViolation);
    assert_eq!(client.reader.read_line().unwrap(), b"SSH-2.0-peer\r\n".to_vec());
}

#[test]
fn connect_refuses_a_line_too_long() {
    let mut client = client_on(&vec![b'a'; 10_000]);
    assert_eq!(client.connect().unwrap_err().kind, SshErrorKind::ProtocolViolation);
}

#[test]
fn packets_wait_for_the_exchange() {
    let mut input = b"SSH-2.0-peer\r\n".to_vec();
    input.extend_from_slice(&encode_packet(b"payload", 4).unwrap());
    let mut client = client_on(&input);
    assert_eq!(client.read_packet().unwrap_err().kind, SshErrorKind::ProtocolViolation);
    assert_eq!(client.write_packet(b"early").unwrap_err().kind, SshErrorKind::ProtocolViolation);
    assert_eq!(client.state, HandshakeState::Start);
    client.connect().unwrap();
    assert_eq!(client.writer.take_written(), ID.to_vec());
    assert_eq!(client.read_packet().unwrap(), b"payload".to_vec());
    assert_eq!(client.state, HandshakeState::PacketExchange);
    client.write_packet(b"reply").unwrap();
    assert_eq!(
        client.writer.take_written(),
        b"\x00\x00\x00\x0c\x06reply\x00\x00\x00\x00\x00\x00".to_vec()
    );
    assert_eq!(client.read_packet().unwrap_err().kind, SshErrorKind::UnexpectedEndOfStream);
    client.connect().unwrap();
    assert_eq!(client.state, HandshakeState::PacketExchange);
}

#[test]
fn message_travels_in_a_packet() {
    let mut input = b"SSH-2.0-peer\r\n".to_vec();
    let mut body = vec![20u8];
    body.extend_from_slice(&[7; 16]);
    for _ in 0..10 {
        body.extend_from_slice(b"\x00\x00\x00\x04none");
    }
    body.extend_from_slice(b"\x00\x00\x00\x00\x00");
    input.extend_from_slice(&encode_packet(&body, 6).unwrap());
    let mut client = client_on(&input);
    client.connect().unwrap();
    let payload = client.read_packet().unwrap();
    assert_eq!(payload, body);
    let message = Message::from_payload(&payload, false).unwrap();
    assert_eq!(message.ssh_size(), 1 + 16 + 10 * 8 + 5);
    let Message::KexInitMsg(kex_init) = message;
    assert_eq!(kex_init.cookie, [7; 16]);
    assert_eq!(kex_init.kex_algorithms.0, vec![b"none".to_vec()]);
    assert_eq!(kex_init.languages_server_to_client.0, vec![b"none".to_vec()]);
    assert!(!kex_init.first_kex_packet_follows);
    assert_eq!(kex_init._reserved, 0);
}

#[test]
fn connect_passes_a_failure_on() {
    let source = MemorySource::failing_after(b"hello\r\nSSH-2.0-peer\r\n".to_vec(), 9);
    let mut client = Client::new(source, Vec::new());
    assert_eq!(client.connect().unwrap_err().kind, SshErrorKind::IoFailure);
    assert_eq!(client.state, HandshakeState::VersionSent);
    assert_eq!(client.discarded, 1);
    assert_eq!(client.peer_version, None);
}
