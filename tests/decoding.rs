use fiberglass::lines::{parse_status, split_lines};
use fiberglass::reply::{decode_reply, ProtocolError};
use fiberglass::session::{accept_response, exit_code, EXIT_FAILURE, EXIT_SUCCESS};

#[test]
fn lines_follow_str_lines() {
    let text = "a\r\nb\n\nc\rd\ne";
    let expected: Vec<Vec<u8>> = text.lines().map(|l| l.as_bytes().to_vec()).collect();
    assert_eq!(split_lines(text.as_bytes()), expected);
    assert_eq!(split_lines(b"x\n"), vec![b"x".to_vec()]);
    assert!(split_lines(b"").is_empty());
    assert_eq!(split_lines(b"\n"), vec![Vec::<u8>::new()]);
}

#[test]
fn status_parsing_follows_i32() {
    for s in ["0", "1", "-1", "+7", "007", "2147483647", "-2147483648", "2147483648", "-2147483649",
        "", "+", "-", "1a", " 1", "--1", "99999999999999999999"] {
        assert_eq!(parse_status(s.as_bytes()), s.parse::<i32>().ok(), "{}", s);
    }
}

#[test]
fn convert_reply_succeeds() {
    let r = decode_reply(b"0\naGk=\nZXJy\nbmV3\n", 1);
    assert_eq!(r.writes, vec![b"new".to_vec()]);
    let h = r.outcome.as_ref().unwrap();
    assert_eq!(h.status, 0);
    assert_eq!(h.stdout, b"hi".to_vec());
    assert_eq!(h.stderr, b"err".to_vec());
    assert_eq!(exit_code(&r), EXIT_SUCCESS);
}

#[test]
fn nonzero_remote_status_fails() {
    let r = decode_reply(b"3\n\n\n", 0);
    assert_eq!(r.outcome.as_ref().unwrap().status, 3);
    assert_eq!(exit_code(&r), EXIT_FAILURE);
}

#[test]
fn crlf_reply_decodes() {
    let r = decode_reply(b"0\r\naGk=\r\n\r\n", 0);
    assert_eq!(r.outcome.as_ref().unwrap().stdout, b"hi".to_vec());
}

#[test]
fn no_files_needs_exactly_three_lines() {
    assert!(decode_reply(b"0\n\n\n", 0).outcome.is_ok());
    assert_eq!(decode_reply(b"0\n\n", 0).outcome.as_ref().err().copied(), Some(ProtocolError::MissingLines));
    let r = decode_reply(b"0\n\n\nbmV3\n", 0);
    assert_eq!(r.outcome.as_ref().err().copied(), Some(ProtocolError::ExtraLine));
    assert!(r.writes.is_empty());
}

#[test]
fn short_reply_fails_without_writes() {
    let r = decode_reply(b"0\naGk=\n\n", 1);
    assert_eq!(r.outcome.as_ref().err().copied(), Some(ProtocolError::MissingLines));
    assert!(r.writes.is_empty());
    let r = decode_reply(b"0\n\n\nbmV3\n", 2);
    assert_eq!(r.outcome.as_ref().err().copied(), Some(ProtocolError::MissingLines));
    assert_eq!(r.writes, vec![b"new".to_vec()]);
}

#[test]
fn empty_reply_fails() {
    let r = decode_reply(b"", 0);
    assert_eq!(r.outcome.as_ref().err().copied(), Some(ProtocolError::MissingLines));
}

#[test]
fn bad_status_fails() {
    let r = decode_reply(b"ok\n\n\nbmV3\n", 1);
    assert_eq!(r.outcome.as_ref().err().copied(), Some(ProtocolError::BadStatus));
    assert!(r.writes.is_empty());
}

#[test]
fn bad_stdout_and_stderr_fail() {
    assert_eq!(decode_reply(b"0\n!\n\n", 0).outcome.as_ref().err().copied(), Some(ProtocolError::BadStdout));
    assert_eq!(decode_reply(b"0\n\n!\n", 0).outcome.as_ref().err().copied(), Some(ProtocolError::BadStderr));
}

#[test]
fn bad_content_keeps_earlier_writes() {
    let r = decode_reply(b"0\n\n\nbmV3\n!!\n", 2);
    assert_eq!(r.outcome.as_ref().err().copied(), Some(ProtocolError::BadContent));
    assert_eq!(r.writes, vec![b"new".to_vec()]);
    assert_eq!(exit_code(&r), EXIT_FAILURE);
}

#[test]
fn non_success_http_status_applies_nothing() {
    assert!(accept_response(500, b"0\n\n\n", 0).is_none());
    assert!(accept_response(404, b"0\n\n\n", 0).is_none());
    let r = accept_response(200, b"0\n\n\n", 0).unwrap();
    assert!(r.outcome.is_ok());
}
