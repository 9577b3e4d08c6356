//! Fatal startup errors.
//!
//! A `BasicError` carries the message shown when the program cannot start at
//! all (missing argument, unreadable file). Row-level rejections never use
//! it; they are reported through [`TxError`](crate::ledger::TxError) and the
//! stream carries on.

use vstd::prelude::*;

verus! {

/// A simple boxed error with a static description.
#[derive(Debug)]
pub struct BasicError {
    /// The human-readable description of what went wrong.
    pub desc: &'static str,
}

impl BasicError {
    /// Boxes a description as an error value.
    pub fn new(desc: &'static str) -> (r: Box<BasicError>)
        ensures
            r.desc == desc,
    {
        Box::new(BasicError { desc })
    }

    /// The description this error carries.
    pub fn description(&self) -> (r: &'static str)
        ensures
            r == self.desc,
    {
        self.desc
    }
}

} // verus!
