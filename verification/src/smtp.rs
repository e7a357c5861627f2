use vstd::prelude::*;
use crate::grammar::{chars_of, equal_ignoring_case, same_ignoring_case};

pub mod data;
pub mod helo;
pub mod mail_from;
pub mod noop;
pub mod quit;
pub mod rcpt_to;

verus! {

/// The abstract state of one connection's session: the strings that the
/// client has handed over so far.
pub struct SessionView {
    pub helo: Option<Seq<char>>,
    pub mail_from: Option<Seq<char>>,
    pub rcpt_to: Seq<Seq<char>>,
    pub data: Option<Seq<char>>,
}

/// The session of a fresh connection: nothing recorded yet.
pub open spec fn empty_session() -> SessionView {
    SessionView { helo: None, mail_from: None, rcpt_to: Seq::empty(), data: None }
}

/// The ordering that the commands enforce: recipients only after a sender,
/// a sender only after a greeting.
pub open spec fn well_ordered(s: SessionView) -> bool {
    &&& s.mail_from is Some ==> s.helo is Some
    &&& s.rcpt_to.len() > 0 ==> s.mail_from is Some
}

pub open spec fn opt_string_view(o: Option<String>) -> Option<Seq<char>> {
    match o {
        Some(s) => Some(s@),
        None => None,
    }
}

pub open spec fn opt_ref_view(o: Option<&String>) -> Option<Seq<char>> {
    match o {
        Some(s) => Some(s@),
        None => None,
    }
}

/// An address argument in angle brackets: it starts with `<` and ends
/// with `>`.
pub open spec fn is_bracketed(addr: Seq<char>) -> bool {
    &&& addr.len() > 0
    &&& addr[0] == '<'
    &&& addr.last() == '>'
}

/// Decides `is_bracketed` on any argument: an empty one is not bracketed;
/// otherwise its first character must be `<` and its last one `>`.
pub fn bracketed(addr: &str) -> (b: bool)
    ensures
        b == is_bracketed(addr@),
{
    let n = addr.unicode_len();
    n > 0 && addr.get_char(0) == '<' && addr.get_char(n - 1) == '>'
}

/// HELO: the host is recorded, whatever was recorded before.
pub open spec fn helo_step(host: Seq<char>, s: SessionView) -> (Reply, SessionView) {
    (Reply::Accepted, SessionView { helo: Some(host), ..s })
}

/// MAIL FROM: refused before a greeting; refused when the sender is not in
/// angle brackets; otherwise recorded.
pub open spec fn mail_from_step(sender: Seq<char>, s: SessionView) -> (Reply, SessionView) {
    if s.helo is None {
        (Reply::BadSequence, s)
    } else if !is_bracketed(sender) {
        (Reply::SyntaxError, s)
    } else {
        (Reply::Accepted, SessionView { mail_from: Some(sender), ..s })
    }
}

/// RCPT TO: refused before a sender or a greeting; refused when the
/// recipient is not in angle brackets; otherwise appended to the recipients.
pub open spec fn rcpt_to_step(recipient: Seq<char>, s: SessionView) -> (Reply, SessionView) {
    if s.mail_from is None || s.helo is None {
        (Reply::BadSequence, s)
    } else if !is_bracketed(recipient) {
        (Reply::SyntaxError, s)
    } else {
        (Reply::Accepted, SessionView { rcpt_to: s.rcpt_to.push(recipient), ..s })
    }
}

/// What a command does: the action for the connection and the session
/// afterwards.
pub open spec fn command_step(cmd: SmtpCommand, payload: Seq<char>, s: SessionView) -> (Action, SessionView) {
    match cmd {
        SmtpCommand::Quit => (Action::Close(Reply::Bye), s),
        SmtpCommand::Noop => (Action::Respond(Reply::Accepted), s),
        SmtpCommand::Helo => (Action::Respond(helo_step(payload, s).0), helo_step(payload, s).1),
        SmtpCommand::MailFrom => (
            Action::Respond(mail_from_step(payload, s).0),
            mail_from_step(payload, s).1,
        ),
        SmtpCommand::RcptTo => (
            Action::Respond(rcpt_to_step(payload, s).0),
            rcpt_to_step(payload, s).1,
        ),
        SmtpCommand::Data => (Action::CollectData(Reply::StartMailInput), s),
        SmtpCommand::Unknown => (Action::RespondBestEffort(Reply::Unrecognized), s),
    }
}

/// A fresh session respects the command ordering.
pub proof fn lemma_empty_session_well_ordered()
    ensures
        well_ordered(empty_session()),
{
}

/// Every command keeps the command ordering: a session that records a
/// sender only after a greeting, and recipients only after a sender, still
/// does so after any command.
pub proof fn lemma_command_keeps_order(cmd: SmtpCommand, payload: Seq<char>, s: SessionView)
    requires
        well_ordered(s),
    ensures
        well_ordered(command_step(cmd, payload, s).1),
{
}

/// Every address that the session holds is in angle brackets.
pub open spec fn addresses_bracketed(s: SessionView) -> bool {
    &&& s.mail_from matches Some(m) ==> is_bracketed(m)
    &&& forall|i: int| 0 <= i < s.rcpt_to.len() ==> is_bracketed(#[trigger] s.rcpt_to[i])
}

/// Every command keeps the addresses in angle brackets: MAIL FROM and RCPT
/// TO record an address only once it has passed the bracket check.
pub proof fn lemma_command_keeps_addresses_bracketed(
    cmd: SmtpCommand,
    payload: Seq<char>,
    s: SessionView,
)
    requires
        addresses_bracketed(s),
    ensures
        addresses_bracketed(command_step(cmd, payload, s).1),
{
    if cmd == SmtpCommand::RcptTo {
        let t = command_step(cmd, payload, s).1;
        assert forall|i: int| 0 <= i < t.rcpt_to.len() implies is_bracketed(#[trigger] t.rcpt_to[i]) by {
            if i < s.rcpt_to.len() {
                assert(is_bracketed(s.rcpt_to[i]));
            }
        }
    }
}

/// MAIL FROM touches nothing but the sender: the greeting, the recipients
/// and the message stay as they were, whatever the answer.
pub proof fn lemma_mail_from_only_sets_sender(sender: Seq<char>, s: SessionView)
    ensures
        mail_from_step(sender, s).1.helo == s.helo,
        mail_from_step(sender, s).1.rcpt_to == s.rcpt_to,
        mail_from_step(sender, s).1.data == s.data,
        mail_from_step(sender, s).1.mail_from == s.mail_from || mail_from_step(sender, s).1.mail_from
            == Some(sender),
{
}

/// RCPT TO only ever appends: the recipients before the command are a
/// prefix of those after it, at most one more is added, and the greeting,
/// the sender and the message stay as they were, whatever the answer.
pub proof fn lemma_rcpt_to_only_appends(recipient: Seq<char>, s: SessionView)
    ensures
        rcpt_to_step(recipient, s).1.rcpt_to.len() <= s.rcpt_to.len() + 1,
        s.rcpt_to.len() <= rcpt_to_step(recipient, s).1.rcpt_to.len(),
        rcpt_to_step(recipient, s).1.rcpt_to.subrange(0, s.rcpt_to.len() as int) == s.rcpt_to,
        rcpt_to_step(recipient, s).1.helo == s.helo,
        rcpt_to_step(recipient, s).1.mail_from == s.mail_from,
        rcpt_to_step(recipient, s).1.data == s.data,
{
    assert(rcpt_to_step(recipient, s).1.rcpt_to.subrange(0, s.rcpt_to.len() as int) =~= s.rcpt_to);
}

/// Storing a message body keeps the command ordering and the bracketed
/// addresses.
pub proof fn lemma_data_keeps_order(body: Seq<u8>, s: SessionView)
    requires
        well_ordered(s),
    ensures
        well_ordered(data::data_step(body, s).1),
        addresses_bracketed(s) ==> addresses_bracketed(data::data_step(body, s).1),
{
}

/// HELO is always accepted and records its argument as the host, whatever
/// it is (empty included) and whatever was recorded before; nothing else in
/// the session changes.
pub proof fn lemma_helo_answers(h: Seq<char>, s: SessionView)
    ensures
        helo_step(h, s).0 == Reply::Accepted,
        helo_step(h, s).1.helo == Some(h),
        helo_step(h, s).1.mail_from == s.mail_from,
        helo_step(h, s).1.rcpt_to == s.rcpt_to,
        helo_step(h, s).1.data == s.data,
{
}

/// MAIL FROM, in terms of its argument: refused with 503 before a greeting;
/// after one, accepted and recorded exactly when the argument is non-empty,
/// starts with `<` and ends with `>`, and refused with 501 otherwise.
pub proof fn lemma_mail_from_answers(a: Seq<char>, s: SessionView)
    ensures
        s.helo is None ==> mail_from_step(a, s) == (Reply::BadSequence, s),
        s.helo is Some && a.len() > 0 && a[0] == '<' && a[a.len() - 1] == '>' ==> mail_from_step(a, s)
            == (Reply::Accepted, SessionView { mail_from: Some(a), ..s }),
        s.helo is Some && !(a.len() > 0 && a[0] == '<' && a[a.len() - 1] == '>') ==> mail_from_step(a, s)
            == (Reply::SyntaxError, s),
{
}

/// RCPT TO, in terms of its argument: refused with 503 unless both a
/// greeting and a sender are recorded; then appended last (whatever the
/// recipients already recorded, repeats included) exactly when the argument
/// is non-empty, starts with `<` and ends with `>`, and refused with 501
/// otherwise.
pub proof fn lemma_rcpt_to_answers(r: Seq<char>, s: SessionView)
    ensures
        (s.helo is None || s.mail_from is None) ==> rcpt_to_step(r, s) == (Reply::BadSequence, s),
        s.helo is Some && s.mail_from is Some && r.len() > 0 && r[0] == '<' && r[r.len() - 1] == '>'
            ==> rcpt_to_step(r, s) == (Reply::Accepted, SessionView { rcpt_to: s.rcpt_to.push(r), ..s }),
        s.helo is Some && s.mail_from is Some && !(r.len() > 0 && r[0] == '<' && r[r.len() - 1] == '>')
            ==> rcpt_to_step(r, s) == (Reply::SyntaxError, s),
{
}

/// Only HELO, MAIL FROM and RCPT TO change the session, and only when they
/// are accepted; a refused command leaves the session as it was.
pub proof fn lemma_only_accepted_commands_change_session(
    cmd: SmtpCommand,
    payload: Seq<char>,
    s: SessionView,
)
    ensures
        command_step(cmd, payload, s).1 != s ==> {
            &&& (cmd == SmtpCommand::Helo || cmd == SmtpCommand::MailFrom || cmd
                == SmtpCommand::RcptTo)
            &&& command_step(cmd, payload, s).0 == Action::Respond(Reply::Accepted)
        },
        command_step(cmd, payload, s).0 == Action::Respond(Reply::BadSequence)
            ==> command_step(cmd, payload, s).1 == s,
        command_step(cmd, payload, s).0 == Action::Respond(Reply::SyntaxError)
            ==> command_step(cmd, payload, s).1 == s,
{
}

/// QUIT, and nothing else, ends the connection.
pub proof fn lemma_only_quit_closes(cmd: SmtpCommand, payload: Seq<char>, s: SessionView)
    ensures
        command_step(cmd, payload, s).0 is Close <==> cmd == SmtpCommand::Quit,
{
}

/// Every reply is one line: it ends with CR LF and nowhere else holds a
/// line feed, and it starts with a three-digit code and a space.
pub proof fn lemma_reply_is_one_line(r: Reply)
    ensures
        reply_text(r).len() >= 6,
        reply_text(r)[reply_text(r).len() - 2] == '\r',
        reply_text(r).last() == '\n',
        forall|i: int| 0 <= i < reply_text(r).len() - 1 ==> reply_text(r)[i] != '\n',
        forall|i: int| 0 <= i < 3 ==> '0' <= #[trigger] reply_text(r)[i] <= '9',
        reply_text(r)[3] == ' ',
{
    reveal_strlit("220 www.mailport.com\r\n");
    reveal_strlit("250 OK\r\n");
    reveal_strlit("221 Bye\r\n");
    reveal_strlit("503 Bad sequence of commands\r\n");
    reveal_strlit("501 Syntax error\r\n");
    reveal_strlit("500 Unrecognized command\r\n");
    reveal_strlit("354 End data with <CR>.<CR>\r\n");
    reveal_strlit("250 OK: NOT IN QUEUE! not yet implemented\r\n");
}

/// What one connection has been told so far.
#[derive(Debug)]
pub struct Session {
    helo: Option<String>,
    mail_from: Option<String>,
    rcpt_to: Vec<String>,
    data: Option<String>,
}

impl View for Session {
    type V = SessionView;

    closed spec fn view(&self) -> SessionView {
        SessionView {
            helo: opt_string_view(self.helo),
            mail_from: opt_string_view(self.mail_from),
            rcpt_to: self.rcpt_to@.map_values(|r: String| r@),
            data: opt_string_view(self.data),
        }
    }
}

impl Session {
    /// A session with nothing recorded.
    pub fn new() -> (s: Session)
        ensures
            s@ == empty_session(),
    {
        let s = Session { helo: None, mail_from: None, rcpt_to: vec![], data: None };
        assert(s@.rcpt_to =~= Seq::<Seq<char>>::empty());
        s
    }

    /// The host that the last greeting named.
    pub fn helo(&self) -> (h: Option<&String>)
        ensures
            opt_ref_view(h) == self@.helo,
    {
        self.helo.as_ref()
    }

    /// The sender that was last accepted.
    pub fn mail_from(&self) -> (m: Option<&String>)
        ensures
            opt_ref_view(m) == self@.mail_from,
    {
        self.mail_from.as_ref()
    }

    /// The recipients accepted so far, in the order they came.
    pub fn rcpt_to(&self) -> (r: &Vec<String>)
        ensures
            r@.map_values(|x: String| x@) == self@.rcpt_to,
    {
        &self.rcpt_to
    }

    /// The message text that was last received.
    pub fn data(&self) -> (d: Option<&String>)
        ensures
            opt_ref_view(d) == self@.data,
    {
        self.data.as_ref()
    }

    pub fn has_helo(&self) -> (b: bool)
        ensures
            b == (self@.helo is Some),
    {
        self.helo.is_some()
    }

    pub fn has_mail_from(&self) -> (b: bool)
        ensures
            b == (self@.mail_from is Some),
    {
        self.mail_from.is_some()
    }

    pub(crate) fn record_helo(&mut self, host: String)
        ensures
            final(self)@ == (SessionView { helo: Some(host@), ..old(self)@ }),
    {
        self.helo = Some(host);
        assert(self@.rcpt_to =~= old(self)@.rcpt_to);
    }

    pub(crate) fn record_mail_from(&mut self, sender: String)
        ensures
            final(self)@ == (SessionView { mail_from: Some(sender@), ..old(self)@ }),
    {
        self.mail_from = Some(sender);
        assert(self@.rcpt_to =~= old(self)@.rcpt_to);
    }

    pub(crate) fn record_rcpt_to(&mut self, recipient: String)
        ensures
            final(self)@ == (SessionView { rcpt_to: old(self)@.rcpt_to.push(recipient@), ..old(self)@ }),
    {
        self.rcpt_to.push(recipient);
        assert(self@.rcpt_to =~= old(self)@.rcpt_to.push(recipient@));
    }

    pub(crate) fn record_data(&mut self, message: String)
        ensures
            final(self)@ == (SessionView { data: Some(message@), ..old(self)@ }),
    {
        self.data = Some(message);
        assert(self@.rcpt_to =~= old(self)@.rcpt_to);
    }
}

/// The replies that the server sends.
#[derive(Debug, Clone, Copy, PartialEq, Eq, Structural)]
pub enum Reply {
    /// Sent once, as soon as a client connects.
    ServiceReady,
    Accepted,
    Bye,
    BadSequence,
    SyntaxError,
    Unrecognized,
    StartMailInput,
    /// The answer once a message body has been received.
    NotQueued,
}

/// The exact line that goes on the wire for each reply.
pub open spec fn reply_text(r: Reply) -> Seq<char> {
    match r {
        Reply::ServiceReady => "220 www.mailport.com\r\n"@,
        Reply::Accepted => "250 OK\r\n"@,
        Reply::Bye => "221 Bye\r\n"@,
        Reply::BadSequence => "503 Bad sequence of commands\r\n"@,
        Reply::SyntaxError => "501 Syntax error\r\n"@,
        Reply::Unrecognized => "500 Unrecognized command\r\n"@,
        Reply::StartMailInput => "354 End data with <CR>.<CR>\r\n"@,
        Reply::NotQueued => "250 OK: NOT IN QUEUE! not yet implemented\r\n"@,
    }
}

impl Reply {
    /// The line to write for this reply.
    pub fn text(&self) -> (t: &'static str)
        ensures
            t@ == reply_text(*self),
    {
        match self {
            Reply::ServiceReady => "220 www.mailport.com\r\n",
            Reply::Accepted => "250 OK\r\n",
            Reply::Bye => "221 Bye\r\n",
            Reply::BadSequence => "503 Bad sequence of commands\r\n",
            Reply::SyntaxError => "501 Syntax error\r\n",
            Reply::Unrecognized => "500 Unrecognized command\r\n",
            Reply::StartMailInput => "354 End data with <CR>.<CR>\r\n",
            Reply::NotQueued => "250 OK: NOT IN QUEUE! not yet implemented\r\n",
        }
    }
}

/// What the connection does with a command's reply.
#[derive(Debug, Clone, Copy, PartialEq, Eq, Structural)]
pub enum Action {
    /// Write the reply and flush it; if either fails the connection ends.
    Respond(Reply),
    /// Write the reply and flush it; failures are ignored.
    RespondBestEffort(Reply),
    /// Write the reply without flushing it; then the connection ends.
    Close(Reply),
    /// Write and flush the reply (failures end the connection), then
    /// collect the message body line by line (see `data::Data`).
    CollectData(Reply),
}

/// The commands that the server tells apart.
#[derive(Debug, Clone, Copy, PartialEq, Eq, Structural)]
pub enum SmtpCommand {
    Quit,
    Noop,
    Helo,
    MailFrom,
    RcptTo,
    Data,
    Unknown,
}

/// The command that a keyword names: one of the six keywords, compared
/// without regard to ASCII case; anything else is `Unknown`.
pub open spec fn command_of_keyword(word: Seq<char>) -> SmtpCommand {
    if same_ignoring_case(word, "QUIT"@) {
        SmtpCommand::Quit
    } else if same_ignoring_case(word, "NOOP"@) {
        SmtpCommand::Noop
    } else if same_ignoring_case(word, "HELO"@) {
        SmtpCommand::Helo
    } else if same_ignoring_case(word, "MAIL FROM:"@) {
        SmtpCommand::MailFrom
    } else if same_ignoring_case(word, "RCPT TO:"@) {
        SmtpCommand::RcptTo
    } else if same_ignoring_case(word, "DATA"@) {
        SmtpCommand::Data
    } else {
        SmtpCommand::Unknown
    }
}

/// The phrase that names each command in log lines.
pub open spec fn command_description(c: SmtpCommand) -> Seq<char> {
    match c {
        SmtpCommand::Quit => "quit command"@,
        SmtpCommand::Noop => "noop command"@,
        SmtpCommand::Helo => "helo command"@,
        SmtpCommand::MailFrom => "mail from command"@,
        SmtpCommand::RcptTo => "rcpt to command"@,
        SmtpCommand::Data => "data command"@,
        SmtpCommand::Unknown => "unknown command"@,
    }
}

impl SmtpCommand {
    /// The phrase that names this command in log lines.
    pub fn describe(&self) -> (d: String)
        ensures
            d@ == command_description(*self),
    {
        match self {
            SmtpCommand::Quit => "quit command".to_owned(),
            SmtpCommand::Noop => "noop command".to_owned(),
            SmtpCommand::Helo => "helo command".to_owned(),
            SmtpCommand::MailFrom => "mail from command".to_owned(),
            SmtpCommand::RcptTo => "rcpt to command".to_owned(),
            SmtpCommand::Data => "data command".to_owned(),
            SmtpCommand::Unknown => "unknown command".to_owned(),
        }
    }

    /// Maps a matched keyword to its command.
    pub fn from_string(cmd_string: String) -> (cmd: SmtpCommand)
        ensures
            cmd == command_of_keyword(cmd_string@),
    {
        let word = chars_of(cmd_string.as_str());
        if equal_ignoring_case(word.as_slice(), chars_of("QUIT").as_slice()) {
            SmtpCommand::Quit
        } else if equal_ignoring_case(word.as_slice(), chars_of("NOOP").as_slice()) {
            SmtpCommand::Noop
        } else if equal_ignoring_case(word.as_slice(), chars_of("HELO").as_slice()) {
            SmtpCommand::Helo
        } else if equal_ignoring_case(word.as_slice(), chars_of("MAIL FROM:").as_slice()) {
            SmtpCommand::MailFrom
        } else if equal_ignoring_case(word.as_slice(), chars_of("RCPT TO:").as_slice()) {
            SmtpCommand::RcptTo
        } else if equal_ignoring_case(word.as_slice(), chars_of("DATA").as_slice()) {
            SmtpCommand::Data
        } else {
            SmtpCommand::Unknown
        }
    }
}

} // verus!
