//! The record of a set-up that is made once.

use vstd::prelude::*;

verus! {

/// Says whether a set-up that is made once was made already. A function
/// that is to be called once takes the record, asks for one that says no,
/// and leaves it saying yes.
pub struct Once {
    called: bool,
}

impl Once {
    /// Whether the set-up was made.
    pub closed spec fn called(&self) -> bool {
        self.called
    }

    /// The record of a set-up that was not made yet.
    pub fn new() -> (once: Once)
        ensures
            !once.called(),
    {
        Once { called: false }
    }

    /// Whether the set-up was made.
    pub fn has_been_called(&self) -> (called: bool)
        ensures
            called == self.called(),
    {
        self.called
    }

    /// Records that the set-up is made now.
    pub fn call(&mut self)
        requires
            !old(self).called(),
        ensures
            final(self).called(),
    {
        self.called = true;
    }
}

} // verus!
