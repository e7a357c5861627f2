//! DATA: the message body, collected line by line until the end marker.

use vstd::prelude::*;
use vstd::utf8::{decode_utf8, valid_utf8};
use crate::decode::decode_utf8_bytes;
use crate::smtp::{command_step, Action, Reply, Session, SessionView, SmtpCommand};

verus! {

/// The bytes that end a message body: CR LF `.` CR LF.
pub open spec fn end_of_data() -> Seq<u8> {
    seq![0x0du8, 0x0au8, 0x2eu8, 0x0du8, 0x0au8]
}

/// The collected bytes end with the end-of-data marker.
pub open spec fn ends_with_end_of_data(b: Seq<u8>) -> bool {
    b.len() >= 5 && b.subrange(b.len() - 5, b.len() as int) == end_of_data()
}

/// The body is complete exactly when its last five bytes are CR LF `.` CR
/// LF, byte by byte; in particular a line that ends with a period but is not
/// a lone `.` never completes it.
pub proof fn lemma_end_of_data_is_the_five_bytes(b: Seq<u8>, line: Seq<u8>)
    ensures
        ends_with_end_of_data(b) <==> (b.len() >= 5 && b[b.len() - 5] == 0x0du8 && b[b.len() - 4]
            == 0x0au8 && b[b.len() - 3] == 0x2eu8 && b[b.len() - 2] == 0x0du8 && b[b.len() - 1]
            == 0x0au8),
        line.len() >= 4 && line[line.len() - 4] != 0x0au8 ==> !ends_with_end_of_data(b + line),
{
    if b.len() >= 5 {
        let tail = b.subrange(b.len() - 5, b.len() as int);
        if b[b.len() - 5] == 0x0du8 && b[b.len() - 4] == 0x0au8 && b[b.len() - 3] == 0x2eu8
            && b[b.len() - 2] == 0x0du8 && b[b.len() - 1] == 0x0au8 {
            assert(tail =~= end_of_data());
        } else {
            assert(tail[0] != end_of_data()[0] || tail[1] != end_of_data()[1] || tail[2]
                != end_of_data()[2] || tail[3] != end_of_data()[3] || tail[4] != end_of_data()[4]);
        }
    }
    let c = b + line;
    if line.len() >= 4 && line[line.len() - 4] != 0x0au8 && c.len() >= 5 {
        let tail = c.subrange(c.len() - 5, c.len() as int);
        assert(tail[1] == line[line.len() - 4]);
        assert(tail[1] != end_of_data()[1]);
    }
}

/// Why a collected message body was refused.
#[derive(Debug, Clone, PartialEq, Eq)]
pub enum DataError {
    /// The body is not valid UTF-8; holds the decoder's message.
    InvalidUtf8(String),
}

/// Storing a collected body: it must be valid UTF-8 (else it is refused,
/// `None`, and the session stays); then its text becomes the session's
/// message and the server answers that it was not queued.
pub open spec fn data_step(body: Seq<u8>, s: SessionView) -> (Option<Reply>, SessionView) {
    if valid_utf8(body) {
        (Some(Reply::NotQueued), SessionView { data: Some(decode_utf8(body)), ..s })
    } else {
        (None, s)
    }
}

/// The bytes of `lines`, one after the other.
pub open spec fn concat_lines(lines: Seq<Seq<u8>>) -> Seq<u8>
    decreases lines.len(),
{
    if lines.len() == 0 {
        Seq::empty()
    } else {
        concat_lines(lines.drop_last()) + lines.last()
    }
}

/// `lines` are the reads of one message body: the body is complete after
/// the last of them and after no earlier one.
pub open spec fn completes_at_last(lines: Seq<Seq<u8>>) -> bool {
    &&& lines.len() > 0
    &&& ends_with_end_of_data(concat_lines(lines))
    &&& forall|k: int| 0 < k < lines.len() ==> !ends_with_end_of_data(#[trigger] concat_lines(lines.take(k)))
}

/// The DATA handler as a whole, given the reads of one message body: it
/// answers that mail input may start, collects every read, and then, if the
/// body is valid UTF-8, stores its text and answers that it was not queued;
/// otherwise the connection ends with the session as it was.  Gives the
/// replies written and the session afterwards.
pub open spec fn data_handler(lines: Seq<Seq<u8>>, s: SessionView) -> (Seq<Reply>, SessionView) {
    let body = concat_lines(lines);
    if valid_utf8(body) {
        (seq![Reply::StartMailInput, Reply::NotQueued], SessionView { data: Some(decode_utf8(body)), ..s })
    } else {
        (seq![Reply::StartMailInput], s)
    }
}

/// The DATA command, carried out in steps, is the DATA handler: `do_command`
/// answers `CollectData` with the start-input reply and leaves the session;
/// each `Data::receive` appends one read, so after `k` reads the collected
/// bytes are the first `k` reads together and the body is reported complete
/// exactly after the last read; and `Data::execute` on what was collected
/// gives the handler's final reply and session.
pub proof fn lemma_data_command_is_data_handler(
    payload: Seq<char>,
    s: SessionView,
    lines: Seq<Seq<u8>>,
)
    requires
        completes_at_last(lines),
    ensures
        command_step(SmtpCommand::Data, payload, s) == (Action::CollectData(Reply::StartMailInput), s),
        data_handler(lines, s).0[0] == Reply::StartMailInput,
        forall|k: int|
            0 <= k < lines.len() ==> #[trigger] concat_lines(lines.take(k + 1)) == concat_lines(
                lines.take(k),
            ) + lines[k],
        concat_lines(lines.take(0)) == Seq::<u8>::empty(),
        concat_lines(lines.take(lines.len() as int)) == concat_lines(lines),
        forall|k: int| 0 < k < lines.len() ==> !ends_with_end_of_data(#[trigger] concat_lines(lines.take(k))),
        ends_with_end_of_data(concat_lines(lines)),
        match data_step(concat_lines(lines), s) {
            (Some(reply), after) => data_handler(lines, s) == (seq![Reply::StartMailInput, reply], after),
            (None, after) => data_handler(lines, s) == (seq![Reply::StartMailInput], after),
        },
{
    assert forall|k: int| 0 <= k < lines.len() implies #[trigger] concat_lines(lines.take(k + 1))
        == concat_lines(lines.take(k)) + lines[k] by {
        assert(lines.take(k + 1).drop_last() =~= lines.take(k));
        assert(lines.take(k + 1).last() == lines[k]);
    }
    assert(lines.take(0) =~= Seq::<Seq<u8>>::empty());
    assert(lines.take(lines.len() as int) =~= lines);
}

/// A message body being collected.
pub struct Data {
    buf: Vec<u8>,
}

impl View for Data {
    type V = Seq<u8>;

    closed spec fn view(&self) -> Seq<u8> {
        self.buf@
    }
}

impl Data {
    /// Nothing collected yet.
    pub fn new() -> (d: Data)
        ensures
            d@ == Seq::<u8>::empty(),
    {
        Data { buf: Vec::new() }
    }

    /// The bytes collected so far.
    pub fn collected(&self) -> (b: &Vec<u8>)
        ensures
            b@ == self@,
    {
        &self.buf
    }

    /// Appends what one read gave and tells whether the body is complete.
    pub fn receive(&mut self, chunk: &[u8]) -> (complete: bool)
        ensures
            final(self)@ == old(self)@ + chunk@,
            complete == ends_with_end_of_data(final(self)@),
            complete <==> (final(self)@.len() >= 5 && final(self)@[final(self)@.len() - 5] == 0x0du8
                && final(self)@[final(self)@.len() - 4] == 0x0au8 && final(self)@[final(self)@.len()
                - 3] == 0x2eu8 && final(self)@[final(self)@.len() - 2] == 0x0du8
                && final(self)@[final(self)@.len() - 1] == 0x0au8),
    {
        let mut i: usize = 0;
        while i < chunk.len()
            invariant
                i <= chunk@.len(),
                self.buf@ == old(self)@ + chunk@.subrange(0, i as int),
            decreases chunk@.len() - i,
        {
            self.buf.push(chunk[i]);
            assert(self.buf@ =~= old(self)@ + chunk@.subrange(0, i + 1));
            i = i + 1;
        }
        assert(chunk@.subrange(0, chunk@.len() as int) =~= chunk@);
        let n = self.buf.len();
        if n < 5 {
            proof {
                lemma_end_of_data_is_the_five_bytes(self.buf@, Seq::empty());
            }
            return false;
        }
        let complete = self.buf[n - 5] == 0x0d && self.buf[n - 4] == 0x0a && self.buf[n - 3] == 0x2e
            && self.buf[n - 2] == 0x0d && self.buf[n - 1] == 0x0a;
        proof {
            let tail = self.buf@.subrange(n - 5, n as int);
            if complete {
                assert(tail =~= end_of_data());
            } else {
                assert(tail[0] != end_of_data()[0] || tail[1] != end_of_data()[1] || tail[2]
                    != end_of_data()[2] || tail[3] != end_of_data()[3] || tail[4]
                    != end_of_data()[4]);
            }
        }
        proof {
            lemma_end_of_data_is_the_five_bytes(self.buf@, Seq::empty());
        }
        complete
    }

    /// Stores the collected body as the session's message.
    pub fn execute(self, session: &mut Session) -> (r: Result<Reply, DataError>)
        ensures
            match r {
                Ok(reply) => data_step(self@, old(session)@) == (Some(reply), final(session)@),
                Err(DataError::InvalidUtf8(_)) => data_step(self@, old(session)@) == (
                    None::<Reply>,
                    final(session)@,
                ),
            },
    {
        match decode_utf8_bytes(self.buf) {
            Ok(message) => {
                session.record_data(message);
                Ok(Reply::NotQueued)
            },
            Err(reason) => Err(DataError::InvalidUtf8(reason)),
        }
    }
}

} // verus!
