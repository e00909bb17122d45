//! The monochrome framebuffer: a 64 by 32 pixel grid flattened row-major into
//! 2048 cells.
//!
//! Each cell is one bit of state stored as a byte: zero for dark, non-zero
//! for lit. The interpreter mutates the grid only by clearing it and by
//! XOR-drawing sprites onto it.

use vstd::prelude::*;

use crate::buffer::zero_bytes;

verus! {

pub const DISPLAY_WIDTH: usize = 64;

pub const DISPLAY_HEIGHT: usize = 32;

pub const GFX_MEMORY_SIZE: usize = 2048;

pub struct GfxMemory {
    pub memory: Vec<u8>,
}

impl GfxMemory {
    /// There is a cell for each of the 2048 grid positions.
    pub open spec fn wf(self) -> bool {
        self.memory.len() == GFX_MEMORY_SIZE
    }

    /// The framebuffer cells as a sequence of bytes, row-major.
    pub open spec fn v(self) -> Seq<u8> {
        self.memory@
    }

    pub fn new() -> (r: GfxMemory)
        ensures
            r.wf(),
            r.v() == Seq::new(2048, |k: int| 0u8),
    {
        GfxMemory { memory: zero_bytes(GFX_MEMORY_SIZE) }
    }

    /// Turn every cell dark.
    pub fn clear(&mut self)
        ensures
            final(self).wf(),
            final(self).v() == Seq::new(2048, |k: int| 0u8),
    {
        self.memory = zero_bytes(GFX_MEMORY_SIZE);
    }

    /// Read-only access to the whole grid, for the presentation layer.
    pub fn get(&self) -> (r: &Vec<u8>)
        ensures
            r@ == self.v(),
    {
        &self.memory
    }

    /// The cell at flattened position `index`.
    pub fn pixel(&self, index: usize) -> (r: u8)
        requires
            self.wf(),
            index < 2048,
        ensures
            r == self.v()[index as int],
    {
        self.memory[index]
    }

    /// Write the cell at flattened position `index`.
    pub fn set(&mut self, index: usize, value: u8)
        requires
            old(self).wf(),
            index < 2048,
        ensures
            final(self).wf(),
            final(self).v() == old(self).v().update(index as int, value),
    {
        self.memory.set(index, value);
    }
}

} // verus!
