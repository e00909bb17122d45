//! The register file: sixteen 8-bit general-purpose registers and the 16-bit
//! index register.
//!
//! Register 0xF doubles as the carry, borrow and collision flag: several
//! instructions overwrite it as a side effect.

use vstd::prelude::*;

use crate::buffer::zero_bytes;

verus! {

pub const NUM_REGISTERS: usize = 16;

pub struct Register {
    pub reg_v: Vec<u8>,
    pub reg_i: u16,
}

impl Register {
    /// There is a slot for each of the sixteen registers.
    pub open spec fn wf(self) -> bool {
        self.reg_v.len() == NUM_REGISTERS
    }

    /// The general-purpose registers as a sequence of bytes.
    pub open spec fn v(self) -> Seq<u8> {
        self.reg_v@
    }

    pub fn new() -> (r: Register)
        ensures
            r.wf(),
            r.v() == Seq::new(16, |k: int| 0u8),
            r.reg_i == 0,
    {
        Register { reg_v: zero_bytes(NUM_REGISTERS), reg_i: 0 }
    }

    /// Zero every general-purpose register and the index register.
    pub fn clear(&mut self)
        ensures
            final(self).wf(),
            final(self).v() == Seq::new(16, |k: int| 0u8),
            final(self).reg_i == 0,
    {
        self.reg_v = zero_bytes(NUM_REGISTERS);
        self.reg_i = 0;
    }

    /// The value of general-purpose register `index`.
    pub fn get(&self, index: usize) -> (r: u8)
        requires
            self.wf(),
            index < 16,
        ensures
            r == self.v()[index as int],
    {
        self.reg_v[index]
    }

    /// Write general-purpose register `index`.
    pub fn set(&mut self, index: usize, value: u8)
        requires
            old(self).wf(),
            index < 16,
        ensures
            final(self).wf(),
            final(self).v() == old(self).v().update(index as int, value),
            final(self).reg_i == old(self).reg_i,
    {
        self.reg_v.set(index, value);
    }
}

} // verus!
