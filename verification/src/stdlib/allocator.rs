//! The heap of a user program, served by the kernel.
use vstd::prelude::*;

verus! {

/// The user-space allocator; every request goes to the kernel.
pub struct MemoryAllocator;

impl MemoryAllocator {
    pub fn new() -> (a: MemoryAllocator) {
        MemoryAllocator
    }
}

} // verus!
