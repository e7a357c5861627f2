//! QUIT: say goodbye; the connection ends after the reply.

use vstd::prelude::*;
use crate::smtp::Reply;

verus! {

pub struct Quit;

impl Quit {
    pub fn new() -> Quit {
        Quit
    }

    pub fn execute(&self) -> (r: Reply)
        ensures
            r == Reply::Bye,
    {
        Reply::Bye
    }
}

} // verus!
