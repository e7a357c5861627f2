use mailport::frame;
use mailport::{read_command, SmtpCommand};
use regex::Regex;

// A keyword matches without regard to ASCII case; unless it ends with ':',
// it must be followed by white space or the end of the line; all white space
// after it is skipped; the argument runs up to a line feed.
fn patterns(words: &[&str]) -> Vec<Regex> {
    words
        .iter()
        .map(|cmd| {
            let pattern = if cmd.ends_with(':') {
                format!("(?i-u:({}))\\s*(.*)", cmd)
            } else {
                format!("(?i-u:({}))(?:\\s|$)\\s*(.*)", cmd)
            };
            Regex::new(pattern.as_str()).unwrap()
        })
        .collect()
}

fn regex_line(res: &[Regex], buf: &str) -> (SmtpCommand, String) {
    let line = buf.trim_end_matches(&['\r', '\n'][..]);
    if line.is_empty() {
        return (SmtpCommand::Unknown, String::new());
    }
    let mut found: Option<(SmtpCommand, String)> = None;
    for re in res {
        if let Some(m) = re.captures(line) {
            found = Some((SmtpCommand::from_string(m[1].to_string()), m[2].to_string()));
        }
    }
    found.unwrap_or((SmtpCommand::Unknown, String::new()))
}

fn regex_frame(res: &[Regex], text: &str) -> Option<(String, String)> {
    let mut found = None;
    for re in res {
        if let Some(m) = re.captures(text) {
            found = Some((m[1].to_string(), m[2].to_string()));
        }
    }
    found
}

fn samples() -> Vec<String> {
    let heads = ["", "x", "HEL", "MAIL FROM", " ", "é"];
    let words = [
        "HELO", "MAIL FROM:", "RCPT TO:", "DATA", "QUIT", "NOOP", "EHLO", "helo", "Mail from:",
        "HELOO", "dAtA", "",
    ];
    let gaps = ["", " ", "  ", "\t", "\u{a0}", "\u{2003}", "\n", "\r", "\u{200b}"];
    let args = ["", "<a@b>", "x y", "é>", "HELO z", "\nQUIT", "a\rb"];
    let ends = ["", "\r\n", "\n", "\r\r\n"];
    let mut out = Vec::new();
    for h in heads {
        for w in words {
            for g in gaps {
                for a in args {
                    for e in ends {
                        out.push(format!("{}{}{}{}{}", h, w, g, a, e));
                    }
                }
            }
        }
    }
    out
}

#[test]
fn command_lines_agree_with_regex_grammar() {
    let res = patterns(&["HELO", "MAIL FROM:", "RCPT TO:", "DATA", "QUIT", "NOOP"]);
    for s in samples() {
        let p = read_command(&s);
        assert_eq!((p.command(), p.payload().clone()), regex_line(&res, &s), "line {:?}", s);
    }
}

#[test]
fn frames_agree_with_regex_grammar() {
    let res = patterns(&["HELO", "EHLO", "QUIT", "NOOP"]);
    for s in samples() {
        let bytes = format!("{}\r\n", s).into_bytes();
        let expected = regex_frame(&res, &s);
        match frame::read_command(&bytes) {
            Ok(c) => assert_eq!(
                Some((c.command().clone(), c.payload().clone())),
                expected,
                "frame {:?}",
                s
            ),
            Err(e) => {
                assert_eq!(e, frame::FrameError::NoCommand, "frame {:?}", s);
                assert_eq!(expected, None, "frame {:?}", s);
            },
        }
    }
}
