//! Decoding of one 16-bit instruction word into its structured fields.

use vstd::prelude::*;

verus! {

/// The field of an instruction word that selects the instruction family:
/// its top nibble.
pub open spec fn op_category(w: u16) -> u16 {
    (w & 0xF000) >> 12
}

/// The first register index of an instruction word: bits 11 down to 8.
pub open spec fn op_x(w: u16) -> int {
    ((w & 0x0F00) >> 8) as int
}

/// The second register index of an instruction word: bits 7 down to 4.
pub open spec fn op_y(w: u16) -> int {
    ((w & 0x00F0) >> 4) as int
}

/// The 12-bit address field of an instruction word.
pub open spec fn op_address(w: u16) -> u16 {
    w & 0x0FFF
}

/// The immediate byte of an instruction word: its low 8 bits.
pub open spec fn op_byte(w: u16) -> u8 {
    (w & 0x00FF) as u8
}

/// The low nibble of an instruction word, used as a sprite height or as a
/// secondary selector.
pub open spec fn op_nibble(w: u16) -> u8 {
    (w & 0x000F) as u8
}

/// The decoded fields all fit in a nibble, a byte or twelve bits.
pub proof fn lemma_op_field_bounds(w: u16)
    by (bit_vector)
    ensures
        op_category(w) <= 0xF,
        op_x(w) <= 0xF,
        op_y(w) <= 0xF,
        op_address(w) <= 0xFFF,
        op_nibble(w) <= 0xF,
{
}

/// One instruction word together with its decoded fields. Every 16-bit value
/// decodes to some structured form; whether the combination is a valid
/// instruction is judged at dispatch time.
#[derive(Debug)]
pub struct Opcode {
    pub opcode: u16,
    pub x: usize,
    pub y: usize,
    pub address: u16,
    pub category: u8,
}

impl Opcode {
    /// The decoded fields agree with the bit layout of the stored word, and
    /// each fits its field width.
    pub open spec fn wf(self) -> bool {
        &&& self.category == op_category(self.opcode)
        &&& self.x == op_x(self.opcode)
        &&& self.y == op_y(self.opcode)
        &&& self.address == op_address(self.opcode)
        &&& self.x < 16
        &&& self.y < 16
        &&& self.address <= 0xFFF
        &&& self.category <= 0xF
    }

    pub fn new(opcode: u16) -> (r: Opcode)
        ensures
            r.wf(),
            r.opcode == opcode,
            r.x < 16,
            r.y < 16,
            r.address <= 0xFFF,
            r.category <= 0xF,
    {
        proof {
            lemma_op_field_bounds(opcode);
        }
        Opcode {
            opcode,
            x: ((opcode & 0x0F00) >> 8) as usize,
            y: ((opcode & 0x00F0) >> 4) as usize,
            address: opcode & 0x0FFF,
            category: ((opcode & 0xF000) >> 12) as u8,
        }
    }

    /// The immediate byte of the word.
    pub fn get_8bit(&self) -> (r: u8)
        ensures
            r == op_byte(self.opcode),
    {
        (self.opcode & 0x00FF) as u8
    }

    /// The low nibble of the word.
    pub fn get_4bit(&self) -> (r: u8)
        ensures
            r == op_nibble(self.opcode),
            r <= 0xF,
    {
        proof {
            lemma_op_field_bounds(self.opcode);
        }
        (self.opcode & 0x000F) as u8
    }
}

} // verus!
