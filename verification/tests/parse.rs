use mailport::{read_command, SmtpCommand};

fn parse(line: &str) -> (SmtpCommand, String) {
    let p = read_command(line);
    (p.command(), p.payload().clone())
}

#[test]
fn helo_with_host() {
    assert_eq!(parse("HELO example.com\r\n"), (SmtpCommand::Helo, "example.com".to_string()));
}

#[test]
fn helo_without_host() {
    assert_eq!(parse("HELO\r\n"), (SmtpCommand::Helo, String::new()));
}

#[test]
fn mail_from_with_sender() {
    assert_eq!(parse("MAIL FROM:<a@b.c>\r\n"), (SmtpCommand::MailFrom, "<a@b.c>".to_string()));
}

#[test]
fn mail_from_one_space_is_skipped() {
    assert_eq!(parse("MAIL FROM: <a@b.c>\r\n"), (SmtpCommand::MailFrom, "<a@b.c>".to_string()));
}

#[test]
fn mail_from_all_spaces_are_skipped() {
    assert_eq!(parse("MAIL FROM:  <x>\r\n"), (SmtpCommand::MailFrom, "<x>".to_string()));
    assert_eq!(parse("HELO \t  host\r\n"), (SmtpCommand::Helo, "host".to_string()));
}

#[test]
fn rcpt_to_with_recipient() {
    assert_eq!(parse("RCPT TO:<d@e.f>\r\n"), (SmtpCommand::RcptTo, "<d@e.f>".to_string()));
}

#[test]
fn quit_and_noop() {
    assert_eq!(parse("QUIT\r\n"), (SmtpCommand::Quit, String::new()));
    assert_eq!(parse("NOOP\r\n"), (SmtpCommand::Noop, String::new()));
}

#[test]
fn data_keyword() {
    assert_eq!(parse("DATA\r\n"), (SmtpCommand::Data, String::new()));
}

#[test]
fn keyword_with_trailing_letters_is_not_that_command() {
    assert_eq!(parse("HELOO\r\n"), (SmtpCommand::Unknown, String::new()));
    assert_eq!(parse("QUITE\r\n"), (SmtpCommand::Unknown, String::new()));
    assert_eq!(parse("NOOPS x\r\n"), (SmtpCommand::Unknown, String::new()));
}

#[test]
fn keyword_followed_by_space_counts_where_it_stands() {
    assert_eq!(parse("HELOO HELO a\r\n"), (SmtpCommand::Helo, "a".to_string()));
}

#[test]
fn keywords_ignore_case() {
    assert_eq!(parse("helo example.com\r\n"), (SmtpCommand::Helo, "example.com".to_string()));
    assert_eq!(parse("Mail From:<a>\r\n"), (SmtpCommand::MailFrom, "<a>".to_string()));
    assert_eq!(parse("rcpt to: <b>\r\n"), (SmtpCommand::RcptTo, "<b>".to_string()));
    assert_eq!(parse("quit\r\n"), (SmtpCommand::Quit, String::new()));
    assert_eq!(parse("data\r\n"), (SmtpCommand::Data, String::new()));
}

#[test]
fn empty_line_is_unknown() {
    assert_eq!(parse("\r\n"), (SmtpCommand::Unknown, String::new()));
    assert_eq!(parse(""), (SmtpCommand::Unknown, String::new()));
    assert_eq!(parse("\r\r\n\n"), (SmtpCommand::Unknown, String::new()));
}

#[test]
fn line_without_keyword_is_unknown() {
    assert_eq!(parse("EHLO example.com\r\n"), (SmtpCommand::Unknown, String::new()));
}

#[test]
fn later_keyword_in_list_wins() {
    assert_eq!(parse("HELO NOOP\r\n"), (SmtpCommand::Noop, String::new()));
    assert_eq!(parse("QUIT MAIL FROM:<a>\r\n"), (SmtpCommand::Quit, "MAIL FROM:<a>".to_string()));
}

#[test]
fn first_occurrence_of_keyword_is_used() {
    assert_eq!(parse("HELO a HELO b\r\n"), (SmtpCommand::Helo, "a HELO b".to_string()));
}

#[test]
fn tab_and_unicode_space_are_skipped() {
    assert_eq!(parse("HELO\tabc\r\n"), (SmtpCommand::Helo, "abc".to_string()));
    assert_eq!(parse("HELO\u{a0}abc\r\n"), (SmtpCommand::Helo, "abc".to_string()));
    assert_eq!(parse("HELO\u{3000}\u{3000}abc\r\n"), (SmtpCommand::Helo, "abc".to_string()));
}

#[test]
fn argument_stops_at_line_feed() {
    assert_eq!(parse("HELO a\nb\r\n"), (SmtpCommand::Helo, "a".to_string()));
    assert_eq!(parse("HELO\nb\r\n"), (SmtpCommand::Helo, "b".to_string()));
}

#[test]
fn inner_carriage_return_stays_in_argument() {
    assert_eq!(parse("HELO a\rb\r\n"), (SmtpCommand::Helo, "a\rb".to_string()));
}

#[test]
fn non_ascii_argument() {
    assert_eq!(parse("HELO h\u{e9}te\r\n"), (SmtpCommand::Helo, "h\u{e9}te".to_string()));
}

#[test]
fn line_ending_is_ignored_law() {
    for text in ["HELO a", "MAIL FROM:<x>", "NOOP", "", "zzz", "HELO a\r"] {
        let crlf = format!("{}\r\n", text);
        let cr = format!("{}\r", text);
        let lf = format!("{}\n", text);
        assert_eq!(parse(&crlf), parse(&cr));
        assert_eq!(parse(&cr), parse(&lf));
        assert_eq!(parse(&lf), parse(text));
    }
}

#[test]
fn from_string_keywords() {
    assert_eq!(SmtpCommand::from_string("QUIT".to_string()), SmtpCommand::Quit);
    assert_eq!(SmtpCommand::from_string("NOOP".to_string()), SmtpCommand::Noop);
    assert_eq!(SmtpCommand::from_string("HELO".to_string()), SmtpCommand::Helo);
    assert_eq!(SmtpCommand::from_string("MAIL FROM:".to_string()), SmtpCommand::MailFrom);
    assert_eq!(SmtpCommand::from_string("RCPT TO:".to_string()), SmtpCommand::RcptTo);
    assert_eq!(SmtpCommand::from_string("DATA".to_string()), SmtpCommand::Data);
    assert_eq!(SmtpCommand::from_string("quit".to_string()), SmtpCommand::Quit);
    assert_eq!(SmtpCommand::from_string("Mail From:".to_string()), SmtpCommand::MailFrom);
    assert_eq!(SmtpCommand::from_string("QUITE".to_string()), SmtpCommand::Unknown);
    assert_eq!(SmtpCommand::from_string(String::new()), SmtpCommand::Unknown);
}

#[test]
fn describe_names() {
    assert_eq!(SmtpCommand::Quit.describe(), "quit command");
    assert_eq!(SmtpCommand::Noop.describe(), "noop command");
    assert_eq!(SmtpCommand::Helo.describe(), "helo command");
    assert_eq!(SmtpCommand::MailFrom.describe(), "mail from command");
    assert_eq!(SmtpCommand::RcptTo.describe(), "rcpt to command");
    assert_eq!(SmtpCommand::Data.describe(), "data command");
    assert_eq!(SmtpCommand::Unknown.describe(), "unknown command");
}
