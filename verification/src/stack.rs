//! The call stack: a fixed-capacity stack of 16-bit return addresses.
//!
//! Pushing onto a full stack or popping from an empty one would corrupt
//! control flow, so both operations demand their precondition; the
//! interpreter checks the depth first and reports a fault instead.

use vstd::prelude::*;

verus! {

/// Maximum number of return addresses the stack can hold.
pub const STACK_CAPACITY: usize = 16;

/// A fixed-capacity stack of return addresses. The abstract value is the
/// sequence of addresses from bottom to top.
pub struct Stack {
    entries: Vec<u16>,
}

impl View for Stack {
    type V = Seq<u16>;

    closed spec fn view(&self) -> Seq<u16> {
        self.entries@
    }
}

impl Stack {
    /// The stack never grows past its capacity.
    pub open spec fn wf(&self) -> bool {
        self@.len() <= STACK_CAPACITY
    }

    /// An empty stack.
    pub fn new() -> (s: Stack)
        ensures
            s@ == Seq::<u16>::empty(),
            s.wf(),
    {
        Stack { entries: Vec::new() }
    }

    /// Current depth of the stack.
    pub fn len(&self) -> (n: usize)
        ensures
            n == self@.len(),
    {
        self.entries.len()
    }

    /// Push a return address; the caller must know the stack is not full.
    pub fn push(&mut self, addr: u16)
        requires
            old(self).wf(),
            old(self)@.len() < STACK_CAPACITY,
        ensures
            final(self)@ == old(self)@.push(addr),
            final(self).wf(),
    {
        self.entries.push(addr);
    }

    /// Pop the most recently pushed address; the caller must know the
    /// stack is not empty.
    pub fn pop(&mut self) -> (addr: u16)
        requires
            old(self).wf(),
            old(self)@.len() > 0,
        ensures
            addr == old(self)@.last(),
            final(self)@ == old(self)@.drop_last(),
            final(self).wf(),
    {
        let a = self.entries.pop().unwrap();
        proof {
            assert(self@ =~= old(self)@.drop_last());
        }
        a
    }
}

} // verus!
