//! HELO: the client names its host.

use vstd::prelude::*;
use crate::smtp::{helo_step, Reply, Session};

verus! {

pub struct Helo {
    host: String,
}

impl View for Helo {
    type V = Seq<char>;

    closed spec fn view(&self) -> Seq<char> {
        self.host@
    }
}

impl Helo {
    pub fn new(host: String) -> (h: Helo)
        ensures
            h@ == host@,
    {
        Helo { host }
    }

    /// Records the host in the session and accepts.
    pub fn execute(&self, session: &mut Session) -> (r: Reply)
        ensures
            (r, final(session)@) == helo_step(self@, old(session)@),
    {
        session.record_helo(self.host.clone());
        Reply::Accepted
    }
}

} // verus!
