use kissshot::packet::{check_header, encode_packet, select_padding};
use kissshot::util::MemorySource;
use kissshot::{Reader, SshErrorKind, Writer};

#[test]
fn decodes_packet_from_stream() {
    let bytes = b"\x00\x00\x00\x0d\x04AAAAAAAA\x00\x00\x00\x00".to_vec();
    let mut reader = Reader::new(MemorySource::new(bytes));
    let payload = reader.read_raw_packet().unwrap();
    assert_eq!(payload, b"AAAAAAAA".to_vec());
    assert_eq!(reader.read_raw_packet().unwrap_err().kind, SshErrorKind::UnexpectedEndOfStream);
}

#[test]
fn payload_is_packet_length_less_padding_less_one() {
    let bytes = b"\x00\x00\x00\x0c\x04AAAAAAAA\x00\x00\x00\x00".to_vec();
    let mut reader = Reader::new(MemorySource::new(bytes));
    let payload = reader.read_raw_packet().unwrap();
    assert_eq!(payload, b"AAAAAAA".to_vec());
    assert_eq!(reader.read_exact_to_vec(1).unwrap(), vec![0]);
}

#[test]
fn decodes_packet_from_any_chunking() {
    let mut bytes = b"\x00\x00\x00\x0d\x04AAAAAAAA\x00\x00\x00\x00".to_vec();
    bytes.extend_from_slice(b"\x00\x00\x00\x07\x05B\xff\xff\xff\xff\xff");
    for chunk_len in 0..bytes.len() + 2 {
        let mut reader = Reader::new(MemorySource::with_chunk_len(bytes.clone(), chunk_len));
        assert_eq!(reader.read_raw_packet().unwrap(), b"AAAAAAAA".to_vec());
        assert_eq!(reader.read_raw_packet().unwrap(), b"B".to_vec());
        assert_eq!(
            reader.read_raw_packet().unwrap_err().kind,
            SshErrorKind::UnexpectedEndOfStream
        );
    }
}

#[test]
fn decodes_empty_payload() {
    let bytes = b"\x00\x00\x00\x05\x04\x00\x00\x00\x00".to_vec();
    let mut reader = Reader::new(MemorySource::new(bytes));
    assert_eq!(reader.read_raw_packet().unwrap(), Vec::<u8>::new());
}

#[test]
fn short_padding_is_a_protocol_violation() {
    let bytes = b"\x00\x00\x00\x0c\x03AAAAAAAA\x00\x00\x00rest".to_vec();
    let mut reader = Reader::new(MemorySource::new(bytes));
    let err = reader.read_raw_packet().unwrap_err();
    assert_eq!(err.kind, SshErrorKind::ProtocolViolation);
    assert_eq!(reader.read_exact_to_vec(15).unwrap(), b"AAAAAAAA\x00\x00\x00rest".to_vec());
}

#[test]
fn zero_padding_is_a_protocol_violation() {
    let mut reader = Reader::new(MemorySource::new(b"\x00\x00\x00\x02\x00A".to_vec()));
    assert_eq!(reader.read_raw_packet().unwrap_err().kind, SshErrorKind::ProtocolViolation);
    assert_eq!(reader.read_exact_to_vec(1).unwrap(), b"A".to_vec());
}

#[test]
fn packet_length_not_above_padding_is_a_protocol_violation() {
    let mut reader = Reader::new(MemorySource::new(b"\x00\x00\x00\x04\x04AAAA".to_vec()));
    assert_eq!(reader.read_raw_packet().unwrap_err().kind, SshErrorKind::ProtocolViolation);
    assert_eq!(reader.read_exact_to_vec(4).unwrap(), b"AAAA".to_vec());
    let mut reader = Reader::new(MemorySource::new(b"\x00\x00\x00\x00\x09".to_vec()));
    assert_eq!(reader.read_raw_packet().unwrap_err().kind, SshErrorKind::ProtocolViolation);
    let mut reader = Reader::new(MemorySource::new(b"\x00\x00\x00\x03\xff".to_vec()));
    assert_eq!(reader.read_raw_packet().unwrap_err().kind, SshErrorKind::ProtocolViolation);
}

#[test]
fn short_header_is_end_of_stream() {
    for len in 0..5 {
        let bytes = b"\x00\x00\x00\x0d\x04"[..len].to_vec();
        let mut reader = Reader::new(MemorySource::new(bytes.clone()));
        assert_eq!(
            reader.read_raw_packet().unwrap_err().kind,
            SshErrorKind::UnexpectedEndOfStream
        );
        assert_eq!(reader.read_exact_to_vec(len).unwrap(), bytes);
    }
}

#[test]
fn unfinished_packet_is_left_in_the_stream() {
    let bytes = b"\x00\x00\x00\x0d\x04AAAAAAAA\x00\x00\x00".to_vec();
    let mut reader = Reader::new(MemorySource::new(bytes));
    assert_eq!(reader.read_raw_packet().unwrap_err().kind, SshErrorKind::UnexpectedEndOfStream);
    reader.feed(b"\x00next");
    assert_eq!(reader.read_raw_packet().unwrap(), b"AAAAAAAA".to_vec());
    assert_eq!(reader.read_exact_to_vec(4).unwrap(), b"next".to_vec());
}

#[test]
fn check_header_gives_payload_length() {
    assert_eq!(check_header(12, 4).unwrap(), 7);
    assert_eq!(check_header(5, 4).unwrap(), 0);
    assert_eq!(check_header(u32::MAX, 255).unwrap(), u32::MAX - 256);
    assert_eq!(check_header(12, 3).unwrap_err().kind, SshErrorKind::ProtocolViolation);
    assert_eq!(check_header(4, 4).unwrap_err().kind, SshErrorKind::ProtocolViolation);
    assert_eq!(check_header(0, 0).unwrap_err().kind, SshErrorKind::ProtocolViolation);
    assert_eq!(check_header(100, 101).unwrap_err().kind, SshErrorKind::ProtocolViolation);
}

#[test]
fn select_padding_fills_to_a_block() {
    assert_eq!(select_padding(0), 11);
    assert_eq!(select_padding(1), 10);
    assert_eq!(select_padding(2), 9);
    assert_eq!(select_padding(3), 8);
    assert_eq!(select_padding(4), 7);
    assert_eq!(select_padding(5), 6);
    assert_eq!(select_padding(6), 5);
    assert_eq!(select_padding(7), 4);
    assert_eq!(select_padding(8), 11);
    assert_eq!(select_padding(usize::MAX), 4);
    for len in 0..100usize {
        let padding = select_padding(len) as usize;
        assert!(4 <= padding && padding < 12);
        assert_eq!((5 + len + padding) % 8, 0);
    }
}

#[test]
fn encode_packet_lays_out_the_fields() {
    let packet = encode_packet(b"AAAAAAAA", 4).unwrap();
    assert_eq!(packet, b"\x00\x00\x00\x0d\x04AAAAAAAA\x00\x00\x00\x00".to_vec());
    let packet = encode_packet(b"", 255).unwrap();
    assert_eq!(packet.len(), 5 + 255);
    assert_eq!(&packet[..5], b"\x00\x00\x01\x00\xff");
    assert!(packet[5..].iter().all(|b| *b == 0));
}

#[test]
fn encode_packet_refuses_short_padding() {
    for padding in 0..4 {
        let err = encode_packet(b"payload", padding).unwrap_err();
        assert_eq!(err.kind, SshErrorKind::ProtocolViolation);
    }
}

#[test]
fn packet_round_trip() {
    let payloads: [&[u8]; 4] = [b"", b"x", b"AAAAAAAA", &[0xff; 300]];
    for payload in payloads {
        for padding in [4u8, 5, 11, 100, 255] {
            let mut bytes = encode_packet(payload, padding).unwrap();
            bytes.extend_from_slice(b"tail");
            let mut reader = Reader::new(MemorySource::with_chunk_len(bytes, 7));
            assert_eq!(reader.read_raw_packet().unwrap(), payload.to_vec());
            assert_eq!(reader.read_exact_to_vec(4).unwrap(), b"tail".to_vec());
        }
    }
}

#[test]
fn writer_frames_what_reader_reads() {
    let mut writer = Writer::new(Vec::<u8>::new());
    writer.write_raw(b"raw").unwrap();
    writer.write_raw_packet(b"hello").unwrap();
    writer.write_raw_packet(b"").unwrap();
    let bytes = writer.take_written();
    assert_eq!(&bytes[..3], b"raw");
    assert_eq!(&bytes[3..19], b"\x00\x00\x00\x0c\x06hello\x00\x00\x00\x00\x00\x00");
    assert_eq!(bytes.len(), 3 + 16 + 16);
    assert_eq!(writer.take_written(), Vec::<u8>::new());
    let mut reader = Reader::new(MemorySource::new(bytes[3..].to_vec()));
    assert_eq!(reader.read_raw_packet().unwrap(), b"hello".to_vec());
    assert_eq!(reader.read_raw_packet().unwrap(), Vec::<u8>::new());
}
