//! NOOP: nothing to do but accept.

use vstd::prelude::*;
use crate::smtp::Reply;

verus! {

pub struct Noop;

impl Noop {
    pub fn new() -> Noop {
        Noop
    }

    pub fn execute(&self) -> (r: Reply)
        ensures
            r == Reply::Accepted,
    {
        Reply::Accepted
    }
}

} // verus!
