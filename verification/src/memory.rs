//! The 4096-byte flat address space.

use vstd::prelude::*;

use crate::buffer::zero_bytes;

verus! {

pub const MEMORY_SIZE: usize = 4096;

pub struct Memory {
    pub memory: Vec<u8>,
}

impl Memory {
    /// The address space spans exactly 4096 bytes.
    pub open spec fn wf(self) -> bool {
        self.memory.len() == MEMORY_SIZE
    }

    /// The memory contents as a sequence of bytes.
    pub open spec fn v(self) -> Seq<u8> {
        self.memory@
    }

    pub fn new() -> (r: Memory)
        ensures
            r.wf(),
            r.v() == Seq::new(4096, |k: int| 0u8),
    {
        Memory { memory: zero_bytes(MEMORY_SIZE) }
    }

    /// The byte at `index`.
    pub fn load8(&self, index: usize) -> (r: u8)
        requires
            self.wf(),
            index < 4096,
        ensures
            r == self.v()[index as int],
    {
        self.memory[index]
    }

    /// The big-endian 16-bit word formed by the bytes at `index` and
    /// `index + 1`.
    pub fn load16(&self, index: usize) -> (r: u16)
        requires
            self.wf(),
            index + 1 < 4096,
        ensures
            r == self.v()[index as int] * 256 + self.v()[index as int + 1],
    {
        (self.memory[index] as u16) * 256 + (self.memory[index + 1] as u16)
    }

    /// Copy `array` into memory starting at address `start`.
    pub fn store(&mut self, start: usize, array: &[u8])
        requires
            old(self).wf(),
            start + array@.len() <= 4096,
        ensures
            final(self).wf(),
            forall|k: int|
                0 <= k < 4096 ==> final(self).v()[k] == (if start <= k < start + array@.len() {
                    array@[k - start]
                } else {
                    old(self).v()[k]
                }),
    {
        let ghost orig = self.v();
        let mut index: usize = 0;
        while index < array.len()
            invariant
                self.wf(),
                orig.len() == 4096,
                index <= array@.len(),
                start + array@.len() <= 4096,
                forall|k: int|
                    0 <= k < 4096 ==> #[trigger] self.v()[k] == (if start <= k < start + index {
                        array@[k - start]
                    } else {
                        orig[k]
                    }),
            decreases array@.len() - index,
        {
            let ghost prev = self.v();
            self.memory.set(start + index, array[index]);
            proof {
                assert(self.v() == prev.update(start + index, array@[index as int]));
            }
            index = index + 1;
        }
    }

    /// Write one byte at `index`.
    pub fn store8(&mut self, index: usize, element: u8)
        requires
            old(self).wf(),
            index < 4096,
        ensures
            final(self).wf(),
            final(self).v() == old(self).v().update(index as int, element),
    {
        self.memory.set(index, element);
    }
}

} // verus!
