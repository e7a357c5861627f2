use mailport::frame::{read_command, FrameError, SmtpCommand};

fn parts(c: &SmtpCommand) -> (String, String) {
    (c.command().clone(), c.payload().clone())
}

#[test]
fn frame_helo() {
    let c = read_command(b"HELO example.com\r\n").unwrap();
    assert_eq!(parts(&c), ("HELO".to_string(), "example.com".to_string()));
}

#[test]
fn frame_keyword_case_and_boundary() {
    let c = read_command(b"ehlo  x\r\n").unwrap();
    assert_eq!(parts(&c), ("ehlo".to_string(), "x".to_string()));
    assert_eq!(read_command(b"HELOX\r\n").unwrap_err(), FrameError::NoCommand);
}

#[test]
fn frame_ehlo() {
    let c = read_command(b"EHLO x\r\n").unwrap();
    assert_eq!(parts(&c), ("EHLO".to_string(), "x".to_string()));
}

#[test]
fn frame_quit_wins_over_helo() {
    let c = read_command(b"HELO a\r\nQUIT\r\n").unwrap();
    assert_eq!(parts(&c), ("QUIT".to_string(), String::new()));
}

#[test]
fn frame_argument_keeps_carriage_return_before_line_feed() {
    let c = read_command(b"HELO a\r\nMAIL\r\n").unwrap();
    assert_eq!(parts(&c), ("HELO".to_string(), "a\r".to_string()));
}

#[test]
fn frame_without_crlf() {
    assert_eq!(read_command(b"HELO x").unwrap_err(), FrameError::IncorrectFormat);
    assert_eq!(read_command(b"HELO x\n").unwrap_err(), FrameError::IncorrectFormat);
    assert_eq!(read_command(b"\n\r").unwrap_err(), FrameError::IncorrectFormat);
}

#[test]
fn frame_shorter_than_crlf() {
    assert_eq!(read_command(b"").unwrap_err(), FrameError::IncorrectFormat);
    assert_eq!(read_command(b"\n").unwrap_err(), FrameError::IncorrectFormat);
}

#[test]
fn frame_invalid_utf8() {
    let err = read_command(b"HELO \xff\r\n").unwrap_err();
    assert_eq!(err.message(), String::from_utf8(b"HELO \xff".to_vec()).unwrap_err().to_string());
    assert!(matches!(err, FrameError::InvalidUtf8(_)));
}

#[test]
fn frame_without_keyword() {
    assert_eq!(read_command(b"MAIL FROM:<a>\r\n").unwrap_err(), FrameError::NoCommand);
    assert_eq!(read_command(b"\r\n").unwrap_err(), FrameError::NoCommand);
}

#[test]
fn frame_new_and_debug() {
    let c = SmtpCommand::new("NOOP".to_string(), "x".to_string());
    assert_eq!(format!("{:?}", c), "SmtpCommand { command: \"NOOP\", payload: \"x\" }");
}

#[test]
fn frame_error_messages() {
    assert_eq!(FrameError::IncorrectFormat.message(), "Request with incorrect format");
    assert_eq!(FrameError::NoCommand.message(), "Could not read any command");
    assert_eq!(FrameError::InvalidUtf8("bad".to_string()).message(), "bad");
}
