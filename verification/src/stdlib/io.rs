//! The console of a user program.
use vstd::prelude::*;

verus! {

/// The standard input and output of a user program.
pub struct Stdio;

impl Stdio {
    pub fn new() -> (s: Stdio) {
        Stdio
    }
}

} // verus!
