//! Process creation from user space.
use vstd::prelude::*;

verus! {

/// Which side of a fork the caller is on.
#[derive(Debug, Clone, Copy, PartialEq, Eq, Structural)]
pub enum Fork {
    Parent,
    Child,
}

impl Fork {
    /// The side that a fork's status names: 0 for the parent, anything else for the child.
    pub fn from(status: u32) -> (f: Fork)
        ensures
            f == (if status == 0 {
                Fork::Parent
            } else {
                Fork::Child
            }),
    {
        match status {
            0 => Fork::Parent,
            _ => Fork::Child,
        }
    }
}

} // verus!
