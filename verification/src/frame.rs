//! A request read as one raw frame of bytes: it must end with CR LF, the
//! rest must be UTF-8 text, and it must carry one of the greeting-stage
//! keywords.

use vstd::prelude::*;
use vstd::utf8::{
    decode_utf8, encode_utf8, encode_utf8_decode_utf8, encode_utf8_valid_utf8, valid_utf8,
};
use crate::decode::decode_utf8_bytes;
use crate::grammar::{
    capture, chars_of, find_last_capture, is_pattern_space, keyword_at, keyword_views,
    last_capture, lemma_keyword_then_argument, lemma_last_capture_picks,
    lemma_no_occurrence_no_capture,
};

verus! {

/// The keywords that a frame may carry, in the order they are tried.
pub open spec fn frame_keywords() -> Seq<Seq<char>> {
    seq!["HELO"@, "EHLO"@, "QUIT"@, "NOOP"@]
}

/// The ways in which a frame can be refused.
#[derive(Debug, Clone, Copy, PartialEq, Eq, Structural)]
pub enum FrameFailure {
    /// The frame does not end with CR LF.
    IncorrectFormat,
    /// The frame's text is not valid UTF-8.
    InvalidUtf8,
    /// None of the keywords counts in the frame.
    NoCommand,
}

/// Why a frame was refused.
#[derive(Debug, Clone, PartialEq, Eq)]
pub enum FrameError {
    /// The frame does not end with CR LF.
    IncorrectFormat,
    /// The frame's text is not valid UTF-8; holds the decoder's message.
    InvalidUtf8(String),
    /// None of the keywords counts in the frame.
    NoCommand,
}

/// The way in which `e` refuses a frame.
pub open spec fn failure_of(e: FrameError) -> FrameFailure {
    match e {
        FrameError::IncorrectFormat => FrameFailure::IncorrectFormat,
        FrameError::InvalidUtf8(_) => FrameFailure::InvalidUtf8,
        FrameError::NoCommand => FrameFailure::NoCommand,
    }
}

impl FrameError {
    /// The message that reports the error.
    pub fn message(&self) -> (m: String)
        ensures
            match self {
                FrameError::IncorrectFormat => m@ == "Request with incorrect format"@,
                FrameError::InvalidUtf8(reason) => m@ == reason@,
                FrameError::NoCommand => m@ == "Could not read any command"@,
            },
    {
        match self {
            FrameError::IncorrectFormat => "Request with incorrect format".to_owned(),
            FrameError::InvalidUtf8(reason) => reason.clone(),
            FrameError::NoCommand => "Could not read any command".to_owned(),
        }
    }
}

/// A keyword and its argument, as found in a frame.
#[derive(Debug)]
pub struct SmtpCommand {
    command: String,
    payload: String,
}

impl View for SmtpCommand {
    type V = (Seq<char>, Seq<char>);

    closed spec fn view(&self) -> (Seq<char>, Seq<char>) {
        (self.command@, self.payload@)
    }
}

impl SmtpCommand {
    pub fn new(command: String, payload: String) -> (c: SmtpCommand)
        ensures
            c@ == (command@, payload@),
    {
        SmtpCommand { command, payload }
    }

    pub fn command(&self) -> (c: &String)
        ensures
            c@ == self@.0,
    {
        &self.command
    }

    pub fn payload(&self) -> (p: &String)
        ensures
            p@ == self@.1,
    {
        &self.payload
    }
}

/// The frame ends with CR LF.
pub open spec fn ends_with_crlf(bytes: Seq<u8>) -> bool {
    bytes.len() >= 2 && bytes[bytes.len() - 2] == 0x0du8 && bytes[bytes.len() - 1] == 0x0au8
}

/// What a frame means: refused unless it ends with CR LF (a frame shorter
/// than two bytes does not); refused unless
/// the bytes before the CR LF are valid UTF-8; refused unless one of the
/// keywords counts in the text; otherwise the text that matched the last
/// keyword (in the order of `frame_keywords`) that counts, with the argument
/// it captures.
pub open spec fn frame_meaning(bytes: Seq<u8>) -> Result<(Seq<char>, Seq<char>), FrameFailure> {
    if !ends_with_crlf(bytes) {
        Err(FrameFailure::IncorrectFormat)
    } else {
        let body = bytes.subrange(0, bytes.len() - 2);
        if !valid_utf8(body) {
            Err(FrameFailure::InvalidUtf8)
        } else {
            match last_capture(decode_utf8(body), frame_keywords()) {
                Some(found) => Ok(found),
                None => Err(FrameFailure::NoCommand),
            }
        }
    }
}

/// A frame made of the UTF-8 encoding of a keyword, white space and an
/// argument, followed by CR LF, carries that keyword with the whole
/// argument, whatever its length: the argument holds no line feed and does
/// not start with white space, and no keyword later in the list counts in
/// the text.  (Without white space in between, the argument must be empty.)
pub proof fn lemma_frame_reads_whole_argument(idx: int, w: Seq<char>, a: Seq<char>)
    requires
        0 <= idx < 4,
        forall|i: int| 0 <= i < w.len() ==> is_pattern_space(#[trigger] w[i]),
        forall|i: int| 0 <= i < a.len() ==> #[trigger] a[i] != '\n',
        a.len() > 0 ==> !is_pattern_space(a[0]),
        w.len() > 0 || a.len() == 0,
        forall|j: int, p: int|
            idx < j < 4 ==> !#[trigger] keyword_at(frame_keywords()[idx] + w + a, frame_keywords()[j], p),
    ensures
        frame_meaning(encode_utf8(frame_keywords()[idx] + w + a) + seq![0x0du8, 0x0au8])
            == Ok::<(Seq<char>, Seq<char>), FrameFailure>((frame_keywords()[idx], a)),
{
    let kw = frame_keywords();
    let k = kw[idx];
    let text = k + w + a;
    let body = encode_utf8(text);
    let bytes = body + seq![0x0du8, 0x0au8];
    assert(bytes.subrange(0, bytes.len() - 2) =~= body);
    encode_utf8_valid_utf8(text);
    encode_utf8_decode_utf8(text);
    lemma_keyword_then_argument(k, w, a);
    assert forall|j: int| idx < j < kw.len() implies capture(text, #[trigger] kw[j]) is None by {
        lemma_no_occurrence_no_capture(text, kw[j]);
    }
    lemma_last_capture_picks(text, kw, idx);
}

/// Reads the command that a frame carries.
pub fn read_command(bytes: &[u8]) -> (r: Result<SmtpCommand, FrameError>)
    ensures
        match r {
            Ok(c) => frame_meaning(bytes@) == Ok::<(Seq<char>, Seq<char>), FrameFailure>(c@),
            Err(e) => frame_meaning(bytes@) == Err::<(Seq<char>, Seq<char>), FrameFailure>(
                failure_of(e),
            ),
        },
{
    let n = bytes.len();
    if n < 2 || bytes[n - 2] != 0x0d || bytes[n - 1] != 0x0a {
        return Err(FrameError::IncorrectFormat);
    }
    let mut body: Vec<u8> = Vec::new();
    let mut i: usize = 0;
    while i < n - 2
        invariant
            n == bytes@.len(),
            n >= 2,
            i <= n - 2,
            body@ == bytes@.subrange(0, i as int),
        decreases n - 2 - i,
    {
        body.push(bytes[i]);
        assert(body@ =~= bytes@.subrange(0, i + 1));
        i = i + 1;
    }
    let text = match decode_utf8_bytes(body) {
        Ok(text) => text,
        Err(reason) => {
            return Err(FrameError::InvalidUtf8(reason));
        },
    };
    let line = chars_of(text.as_str());
    let words: Vec<&str> = vec!["HELO", "EHLO", "QUIT", "NOOP"];
    assert(keyword_views(words@) =~= frame_keywords());
    match find_last_capture(line.as_slice(), &words) {
        None => Err(FrameError::NoCommand),
        Some((ks, ke, st, sp)) => {
            let command = text.as_str().substring_char(ks, ke).to_owned();
            let payload = text.as_str().substring_char(st, sp).to_owned();
            Ok(SmtpCommand::new(command, payload))
        },
    }
}

} // verus!
