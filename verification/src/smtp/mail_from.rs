//! MAIL FROM: the client names the sender.

use vstd::prelude::*;
use crate::smtp::{mail_from_step, Reply, Session};
use crate::smtp::bracketed;

verus! {

pub struct MailFrom {
    sender: String,
}

impl View for MailFrom {
    type V = Seq<char>;

    closed spec fn view(&self) -> Seq<char> {
        self.sender@
    }
}

impl MailFrom {
    pub fn new(sender: String) -> (m: MailFrom)
        ensures
            m@ == sender@,
    {
        MailFrom { sender }
    }

    /// Refuses the sender before a greeting, refuses one that is not in
    /// angle brackets, and otherwise records it.
    pub fn execute(&self, session: &mut Session) -> (r: Reply)
        ensures
            (r, final(session)@) == mail_from_step(self@, old(session)@),
    {
        if !session.has_helo() {
            return Reply::BadSequence;
        }
        if !bracketed(self.sender.as_str()) {
            return Reply::SyntaxError;
        }
        session.record_mail_from(self.sender.clone());
        Reply::Accepted
    }
}

} // verus!
