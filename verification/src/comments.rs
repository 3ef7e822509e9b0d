//! An incoming comment and the bound on its length.

use vstd::prelude::*;

verus! {

/// The shortest message accepted, in bytes.
pub const COMMENT_MIN_LEN: usize = 1;

/// The longest message accepted, in bytes.
pub const COMMENT_MAX_LEN: usize = 4096;

/// A comment as a caller submits it: the UTF-8 bytes of its message.
#[derive(Clone, Debug, PartialEq, Eq)]
pub struct NewComment {
    pub message: Vec<u8>,
}

impl NewComment {
    /// A message passes when its length lies within the accepted bounds.
    pub open spec fn valid(self) -> bool {
        COMMENT_MIN_LEN <= self.message@.len() <= COMMENT_MAX_LEN
    }

    /// Checks the message length against the accepted bounds.
    pub fn validate(&self) -> (ok: bool)
        ensures
            ok == self.valid(),
    {
        COMMENT_MIN_LEN <= self.message.len() && self.message.len() <= COMMENT_MAX_LEN
    }
}

} // verus!
