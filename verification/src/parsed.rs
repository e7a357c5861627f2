//! One command as read from the client, and what the server does with it.

use vstd::prelude::*;
use crate::grammar::{
    capture, chars_of, find_last_capture, fold_case, is_pattern_space, keyword_at, keyword_views,
    last_capture, lemma_keyword_then_argument, lemma_last_capture_picks,
    lemma_no_occurrence_no_capture, same_ignoring_case, trim_line_ending, trimmed_len,
};
use crate::smtp::{
    command_of_keyword, command_step, Action, Reply,
    Session, SmtpCommand,
};
use crate::smtp::helo::Helo;
use crate::smtp::mail_from::MailFrom;
use crate::smtp::noop::Noop;
use crate::smtp::quit::Quit;
use crate::smtp::rcpt_to::RcptTo;

verus! {

/// The keywords that the server looks for, in the order it tries them.
pub open spec fn command_keywords() -> Seq<Seq<char>> {
    seq!["HELO"@, "MAIL FROM:"@, "RCPT TO:"@, "DATA"@, "QUIT"@, "NOOP"@]
}

/// What a line read from the client means: its line ending is cut off; an
/// empty line is `Unknown`; otherwise the last keyword (in the order of
/// `command_keywords`) that counts in the line decides the command, named
/// by the text that matched it, and the argument is what the grammar
/// captures after it.  A line in which no keyword counts is `Unknown` with
/// an empty argument.
pub open spec fn parsed_line(buf: Seq<char>) -> (SmtpCommand, Seq<char>) {
    let line = trim_line_ending(buf);
    if line.len() == 0 {
        (SmtpCommand::Unknown, Seq::empty())
    } else {
        match last_capture(line, command_keywords()) {
            Some((word, arg)) => (command_of_keyword(word), arg),
            None => (SmtpCommand::Unknown, Seq::empty()),
        }
    }
}

/// The line ending that a line arrives with does not change what it means:
/// the same text with CR LF, with LF alone, or with no ending at all reads
/// as the same command with the same argument.
pub proof fn lemma_line_ending_is_ignored(text: Seq<char>)
    ensures
        parsed_line(text + seq!['\r', '\n']) == parsed_line(text.push('\r')),
        parsed_line(text.push('\r')) == parsed_line(text.push('\n')),
        parsed_line(text.push('\n')) == parsed_line(text),
{
    assert((text + seq!['\r', '\n']).drop_last() =~= text.push('\r'));
    assert(text.push('\r').drop_last() =~= text);
    assert(text.push('\n').drop_last() =~= text);
}

/// The command that each keyword of `command_keywords` names, in the same
/// order.
pub open spec fn keyword_command(idx: int) -> SmtpCommand {
    seq![
        SmtpCommand::Helo,
        SmtpCommand::MailFrom,
        SmtpCommand::RcptTo,
        SmtpCommand::Data,
        SmtpCommand::Quit,
        SmtpCommand::Noop,
    ][idx]
}

proof fn lemma_keywords_name_their_commands(idx: int)
    requires
        0 <= idx < 6,
    ensures
        command_of_keyword(command_keywords()[idx]) == keyword_command(idx),
{
    reveal_strlit("HELO");
    reveal_strlit("MAIL FROM:");
    reveal_strlit("RCPT TO:");
    reveal_strlit("DATA");
    reveal_strlit("QUIT");
    reveal_strlit("NOOP");
    let kw = command_keywords();
    let w = kw[idx];
    assert(same_ignoring_case(w, w));
    if idx == 0 {
        assert(fold_case(w[0]) != fold_case("QUIT"@[0]));
        assert(fold_case(w[0]) != fold_case("NOOP"@[0]));
    } else if idx == 1 {
        assert(fold_case(w[0]) != fold_case("RCPT TO:"@[0]));
    } else if idx == 2 {
    } else if idx == 3 {
        assert(fold_case(w[0]) != fold_case("QUIT"@[0]));
        assert(fold_case(w[0]) != fold_case("NOOP"@[0]));
        assert(fold_case(w[0]) != fold_case("HELO"@[0]));
    } else if idx == 4 {
    } else {
        assert(fold_case(w[0]) != fold_case("QUIT"@[0]));
    }
}

proof fn lemma_trim_line_ending_drops(x: Seq<char>, e: Seq<char>)
    requires
        forall|i: int| 0 <= i < e.len() ==> #[trigger] e[i] == '\r' || e[i] == '\n',
    ensures
        trim_line_ending(x + e) == trim_line_ending(x),
    decreases e.len(),
{
    if e.len() > 0 {
        assert((x + e).drop_last() =~= x + e.drop_last());
        lemma_trim_line_ending_drops(x, e.drop_last());
    } else {
        assert(x + e =~= x);
    }
}

/// A line made of a keyword, white space, an argument and a line ending
/// reads as the keyword's command with the whole argument, whatever its
/// length: the argument holds no line feed, does not start with white space
/// or end with a carriage return, and no keyword later in the list counts
/// in the line.  (Without white space in between, the keyword must end with
/// `:`.)
pub proof fn lemma_keyword_line_reads_whole_argument(
    idx: int,
    w: Seq<char>,
    a: Seq<char>,
    e: Seq<char>,
)
    requires
        0 <= idx < 6,
        forall|i: int| 0 <= i < w.len() ==> is_pattern_space(#[trigger] w[i]),
        a.len() > 0,
        forall|i: int| 0 <= i < a.len() ==> #[trigger] a[i] != '\n',
        !is_pattern_space(a[0]),
        a.last() != '\r',
        w.len() > 0 || command_keywords()[idx].last() == ':',
        forall|i: int| 0 <= i < e.len() ==> #[trigger] e[i] == '\r' || e[i] == '\n',
        forall|j: int, p: int|
            idx < j < 6 ==> !#[trigger] keyword_at(command_keywords()[idx] + w + a, command_keywords()[j], p),
    ensures
        parsed_line(command_keywords()[idx] + w + a + e) == (keyword_command(idx), a),
{
    let kw = command_keywords();
    let k = kw[idx];
    let line = k + w + a;
    reveal_strlit("HELO");
    reveal_strlit("MAIL FROM:");
    reveal_strlit("RCPT TO:");
    reveal_strlit("DATA");
    reveal_strlit("QUIT");
    reveal_strlit("NOOP");
    assert(k.len() > 0);
    lemma_trim_line_ending_drops(line, e);
    assert(line.last() == a.last());
    assert(trim_line_ending(line) == line);
    lemma_keyword_then_argument(k, w, a);
    assert forall|j: int| idx < j < kw.len() implies capture(line, #[trigger] kw[j]) is None by {
        lemma_no_occurrence_no_capture(line, kw[j]);
    }
    lemma_last_capture_picks(line, kw, idx);
    lemma_keywords_name_their_commands(idx);
}

/// A line that is a keyword alone (with a line ending) reads as the
/// keyword's command with an empty argument, provided no keyword later in
/// the list counts in it.
pub proof fn lemma_bare_keyword_line(idx: int, e: Seq<char>)
    requires
        0 <= idx < 6,
        forall|i: int| 0 <= i < e.len() ==> #[trigger] e[i] == '\r' || e[i] == '\n',
        forall|j: int, p: int|
            idx < j < 6 ==> !#[trigger] keyword_at(command_keywords()[idx], command_keywords()[j], p),
    ensures
        parsed_line(command_keywords()[idx] + e) == (keyword_command(idx), Seq::<char>::empty()),
{
    let kw = command_keywords();
    let k = kw[idx];
    let empty = Seq::<char>::empty();
    assert(k + empty + empty =~= k);
    lemma_trim_line_ending_drops(k, e);
    reveal_strlit("HELO");
    reveal_strlit("MAIL FROM:");
    reveal_strlit("RCPT TO:");
    reveal_strlit("DATA");
    reveal_strlit("QUIT");
    reveal_strlit("NOOP");
    assert(k.len() > 0 && k.last() != '\r' && k.last() != '\n');
    assert(trim_line_ending(k) == k);
    lemma_keyword_then_argument(k, empty, empty);
    assert forall|j: int| idx < j < kw.len() implies capture(k, #[trigger] kw[j]) is None by {
        lemma_no_occurrence_no_capture(k, kw[j]);
    }
    lemma_last_capture_picks(k, kw, idx);
    lemma_keywords_name_their_commands(idx);
}

/// A command together with its argument.
#[derive(Debug)]
pub struct ParsedSMTP {
    command: SmtpCommand,
    payload: String,
}

impl View for ParsedSMTP {
    type V = (SmtpCommand, Seq<char>);

    closed spec fn view(&self) -> (SmtpCommand, Seq<char>) {
        (self.command, self.payload@)
    }
}

impl ParsedSMTP {
    pub fn new(command: SmtpCommand, payload: String) -> (p: ParsedSMTP)
        ensures
            p@ == (command, payload@),
    {
        ParsedSMTP { command, payload }
    }

    pub fn command(&self) -> (c: SmtpCommand)
        ensures
            c == self@.0,
    {
        self.command
    }

    pub fn payload(&self) -> (p: &String)
        ensures
            p@ == self@.1,
    {
        &self.payload
    }

    /// Carries the command out on the session and tells the connection what
    /// to do with the reply.
    pub fn do_command(&self, session: &mut Session) -> (a: Action)
        ensures
            (a, final(session)@) == command_step(self@.0, self@.1, old(session)@),
    {
        match self.command {
            SmtpCommand::Quit => {
                let quit_cmd = Quit::new();
                Action::Close(quit_cmd.execute())
            },
            SmtpCommand::Noop => {
                let noop_cmd = Noop::new();
                Action::Respond(noop_cmd.execute())
            },
            SmtpCommand::Helo => {
                let helo_cmd = Helo::new(self.payload.clone());
                Action::Respond(helo_cmd.execute(session))
            },
            SmtpCommand::MailFrom => {
                let mail_from_cmd = MailFrom::new(self.payload.clone());
                Action::Respond(mail_from_cmd.execute(session))
            },
            SmtpCommand::RcptTo => {
                let rcpt_to_cmd = RcptTo::new(self.payload.clone());
                Action::Respond(rcpt_to_cmd.execute(session))
            },
            SmtpCommand::Data => Action::CollectData(Reply::StartMailInput),
            SmtpCommand::Unknown => Action::RespondBestEffort(Reply::Unrecognized),
        }
    }
}

/// Reads the command that a line from the client (as received, line ending
/// included) carries.
pub fn read_command(buf: &str) -> (p: ParsedSMTP)
    ensures
        p@ == parsed_line(buf@),
{
    let chars = chars_of(buf);
    let k = trimmed_len(chars.as_slice());
    if k == 0 {
        return ParsedSMTP::new(SmtpCommand::Unknown, String::new());
    }
    let line: &[char] = &chars.as_slice()[0..k];
    let words: Vec<&str> = vec!["HELO", "MAIL FROM:", "RCPT TO:", "DATA", "QUIT", "NOOP"];
    assert(keyword_views(words@) =~= command_keywords());
    let found = find_last_capture(line, &words);
    match found {
        None => ParsedSMTP::new(SmtpCommand::Unknown, String::new()),
        Some((ks, ke, st, sp)) => {
            let command = SmtpCommand::from_string(buf.substring_char(ks, ke).to_owned());
            assert(buf@.subrange(ks as int, ke as int) =~= line@.subrange(ks as int, ke as int));
            let payload = buf.substring_char(st, sp).to_owned();
            assert(buf@.subrange(st as int, sp as int) =~= line@.subrange(st as int, sp as int));
            ParsedSMTP::new(command, payload)
        },
    }
}

} // verus!
