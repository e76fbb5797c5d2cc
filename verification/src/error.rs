//! The failure taxonomy of the machine: a load that does not fit, a return
//! from an empty call stack, and a memory access past the address space.

use vstd::prelude::*;

verus! {

/// What can go wrong while loading or running a program.
///
/// `ProgramTooLarge` is a load-time, recoverable rejection. `StackUnderflow`
/// and `OutOfBounds` are runtime faults: the machine halts and surfaces them,
/// distinct from the graceful halt of a program that runs off the end of
/// memory.
#[derive(Clone, Copy, Debug, PartialEq, Eq, Structural)]
pub enum Chip8Error {
    /// The program image would extend past the end of memory.
    ProgramTooLarge,
    /// A return instruction ran with an empty call stack.
    StackUnderflow,
    /// A memory access targeted an address at or past the end of memory.
    OutOfBounds,
}

} // verus!
