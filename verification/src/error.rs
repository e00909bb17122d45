//! Fatal interpreter errors.
//!
//! An unrecognized instruction, an exhausted call stack or an access outside
//! the address spaces cannot be recovered from: the interpreter stops and
//! reports the condition rather than continue from a corrupted state.

use vstd::prelude::*;

verus! {

/// The conditions on which the interpreter halts.
#[derive(Debug, Clone, Copy, PartialEq, Eq, Structural)]
pub enum Chip8Error {
    /// An instruction word whose secondary selector maps to no instruction,
    /// together with the program counter it was fetched from.
    InvalidOpcode(u16, u16),
    /// A call was executed while the call stack was full.
    StackOverflow,
    /// A return was executed while the call stack was empty.
    StackUnderflow,
    /// An instruction fetch or a data access fell outside the 4096-byte
    /// address space.
    MemoryOutOfBounds,
    /// A keypad test named a key index above 0xF.
    KeyOutOfRange,
}

} // verus!
