//! The sixteen-key keypad state.
//!
//! The input layer writes individual key slots (non-zero for a key that is
//! held down); the interpreter only reads them.

use vstd::prelude::*;

use crate::buffer::zero_bytes;

verus! {

pub const NUM_KEYS: usize = 16;

pub struct Keyboard {
    pub keys: Vec<u8>,
}

impl Keyboard {
    /// There is a slot for each of the sixteen keys.
    pub open spec fn wf(self) -> bool {
        self.keys.len() == NUM_KEYS
    }

    /// The key states as a sequence of bytes, indexed by key number.
    pub open spec fn v(self) -> Seq<u8> {
        self.keys@
    }

    pub fn new() -> (r: Keyboard)
        ensures
            r.wf(),
            r.v() == Seq::new(16, |k: int| 0u8),
    {
        Keyboard { keys: zero_bytes(NUM_KEYS) }
    }

    /// The state of key `index`: non-zero when held down.
    pub fn get(&self, index: usize) -> (r: u8)
        requires
            self.wf(),
            index < 16,
        ensures
            r == self.v()[index as int],
    {
        self.keys[index]
    }

    /// Record key `index` as down (non-zero) or up (zero).
    pub fn set(&mut self, index: usize, value: u8)
        requires
            old(self).wf(),
            index < 16,
        ensures
            final(self).wf(),
            final(self).v() == old(self).v().update(index as int, value),
    {
        self.keys.set(index, value);
    }
}

} // verus!
