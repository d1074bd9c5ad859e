use kissshot::{SshError, SshErrorKind, SshResult};

#[test]
fn new_builds_the_failing_result() {
    let r: SshResult<u8> = SshError::new(SshErrorKind::UnsupportedOperation, "no".to_string());
    let err = r.unwrap_err();
    assert_eq!(err.kind, SshErrorKind::UnsupportedOperation);
    assert_eq!(err.desc, "no");
}

#[test]
fn description_names_every_kind() {
    let describe = |kind| SshError { kind, desc: String::new() }.description();
    assert_eq!(describe(SshErrorKind::IoFailure), "i/o error");
    assert_eq!(describe(SshErrorKind::UnexpectedEndOfStream), "unexpected end of stream");
    assert_eq!(describe(SshErrorKind::ProtocolViolation), "protocol violation");
    assert_eq!(describe(SshErrorKind::UnknownMessageTag), "unknown message tag");
    assert_eq!(describe(SshErrorKind::UnsupportedOperation), "unsupported operation");
}

#[test]
fn io_error_becomes_io_failure() {
    let io = std::io::Error::new(std::io::ErrorKind::BrokenPipe, "pipe is gone");
    let err = SshError::from(io);
    assert_eq!(err.kind, SshErrorKind::IoFailure);
    assert_eq!(err.desc, "io error: pipe is gone");
}

#[test]
fn io_error_converts_with_question_mark() {
    fn fails() -> SshResult<()> {
        Err(std::io::Error::new(std::io::ErrorKind::Other, "boom"))?;
        Ok(())
    }
    let err = fails().unwrap_err();
    assert_eq!(err.kind, SshErrorKind::IoFailure);
    assert!(err.desc.contains("boom"));
}

#[test]
fn io_failure_puts_the_prefix_before_the_text() {
    let err = SshError::io_failure("connection reset");
    assert_eq!(err.kind, SshErrorKind::IoFailure);
    assert_eq!(err.desc, "io error: connection reset");
    let err = SshError::io_failure("");
    assert_eq!(err.desc, "io error: ");
    assert_eq!(err.description(), "i/o error");
}

#[test]
fn io_error_text_is_kept_once() {
    let io = std::io::Error::new(std::io::ErrorKind::Other, "io error: nested");
    let err = SshError::from(io);
    assert_eq!(err.desc, "io error: io error: nested");
    let io = std::io::Error::from(std::io::ErrorKind::UnexpectedEof);
    let text = io.to_string();
    assert_eq!(SshError::from(io).desc, format!("io error: {}", text));
}
