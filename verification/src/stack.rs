//! The call stack: a last-in-first-out sequence of return addresses.

use vstd::prelude::*;

use crate::error::Chip8Error;

verus! {

/// Return addresses of the subroutines currently entered, most recent last.
/// The depth is unbounded; a return from an empty stack is refused, never
/// silently ignored.
pub struct Stack {
    stack: Vec<usize>,
}

impl Stack {
    /// An empty call stack.
    pub fn new() -> (r: Self)
        ensures
            r@ == Seq::<usize>::empty(),
    {
        let stack: Vec<usize> = Vec::new();

        Self { stack }
    }

    /// Appends a return address.
    pub fn push(&mut self, value: usize)
        ensures
            final(self)@ == old(self)@.push(value),
    {
        self.stack.push(value);
    }

    /// Removes and returns the most recent return address; an empty stack is
    /// a `StackUnderflow` fault and leaves the stack unchanged.
    pub fn ret(&mut self) -> (r: Result<usize, Chip8Error>)
        ensures
            old(self)@.len() == 0 ==> r == Result::<usize, Chip8Error>::Err(
                Chip8Error::StackUnderflow,
            ) && final(self)@ == old(self)@,
            old(self)@.len() > 0 ==> r == Result::<usize, Chip8Error>::Ok(old(self)@.last())
                && final(self)@ == old(self)@.drop_last(),
    {
        match self.stack.pop() {
            Some(value) => Ok(value),
            None => Err(Chip8Error::StackUnderflow),
        }
    }

    /// The whole sequence of return addresses, most recent last.
    pub fn stack(&self) -> (r: &Vec<usize>)
        ensures
            r@ == self@,
    {
        &self.stack
    }
}

impl View for Stack {
    type V = Seq<usize>;

    closed spec fn view(&self) -> Seq<usize> {
        self.stack@
    }
}

} // verus!
