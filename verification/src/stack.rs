//! The call stack: sixteen slots of 16-bit return addresses and an explicit
//! stack pointer.
//!
//! The pointer names the slot holding the top entry; slot 0 is the resting
//! position of the empty stack, so up to fifteen return addresses can be
//! held. Pushing when full and popping when empty are fatal program errors;
//! the interpreter tests the pointer before either operation, so `push` and
//! `pop` themselves require room.

use vstd::prelude::*;

use crate::buffer::zero_words;

verus! {

pub const STACK_SIZE: usize = 16;

pub struct Stack {
    pub stack: Vec<u16>,
    pub stack_pointer: u16,
}

impl Stack {
    /// Sixteen slots, with the pointer always naming one of them.
    pub open spec fn wf(self) -> bool {
        &&& self.stack.len() == STACK_SIZE
        &&& self.stack_pointer <= 15
    }

    /// The slots as a sequence of 16-bit words.
    pub open spec fn v(self) -> Seq<u16> {
        self.stack@
    }

    /// The stack pointer.
    pub open spec fn sp(self) -> u16 {
        self.stack_pointer
    }

    pub fn new() -> (r: Stack)
        ensures
            r.wf(),
            r.v() == Seq::new(16, |k: int| 0u16),
            r.sp() == 0,
    {
        Stack { stack: zero_words(STACK_SIZE), stack_pointer: 0 }
    }

    /// Advance the pointer and place `reg` in the slot it now names.
    pub fn push(&mut self, reg: u16)
        requires
            old(self).wf(),
            old(self).sp() < 15,
        ensures
            final(self).wf(),
            final(self).sp() == old(self).sp() + 1,
            final(self).v() == old(self).v().update(old(self).sp() + 1, reg),
    {
        self.stack_pointer = self.stack_pointer + 1;
        self.stack.set(self.stack_pointer as usize, reg);
    }

    /// Take the top entry and retreat the pointer. The vacated slot keeps its
    /// value; only the pointer forgets it.
    pub fn pop(&mut self) -> (r: u16)
        requires
            old(self).wf(),
            old(self).sp() >= 1,
        ensures
            final(self).wf(),
            r == old(self).v()[old(self).sp() as int],
            final(self).sp() == old(self).sp() - 1,
            final(self).v() == old(self).v(),
    {
        let ret_val = self.stack[self.stack_pointer as usize];
        self.stack_pointer = self.stack_pointer - 1;
        ret_val
    }

    /// The entry in the slot the pointer names.
    pub fn current(&self) -> (r: u16)
        requires
            self.wf(),
        ensures
            r == self.v()[self.sp() as int],
    {
        self.stack[self.stack_pointer as usize]
    }

    /// The stack pointer.
    pub fn get_pointer(&self) -> (r: u16)
        ensures
            r == self.sp(),
    {
        self.stack_pointer
    }
}

} // verus!
