//! RCPT TO: the client names one more recipient.

use vstd::prelude::*;
use crate::smtp::{rcpt_to_step, Reply, Session};
use crate::smtp::bracketed;

verus! {

pub struct RcptTo {
    recipient: String,
}

impl View for RcptTo {
    type V = Seq<char>;

    closed spec fn view(&self) -> Seq<char> {
        self.recipient@
    }
}

impl RcptTo {
    pub fn new(recipient: String) -> (r: RcptTo)
        ensures
            r@ == recipient@,
    {
        RcptTo { recipient }
    }

    /// Refuses the recipient before a sender or a greeting, refuses one
    /// that is not in angle brackets, and otherwise appends it.
    pub fn execute(&self, session: &mut Session) -> (r: Reply)
        ensures
            (r, final(session)@) == rcpt_to_step(self@, old(session)@),
    {
        if !session.has_mail_from() || !session.has_helo() {
            return Reply::BadSequence;
        }
        if !bracketed(self.recipient.as_str()) {
            return Reply::SyntaxError;
        }
        session.record_rcpt_to(self.recipient.clone());
        Reply::Accepted
    }
}

} // verus!
