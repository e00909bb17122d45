//! The CPU core: it owns every machine component and drives the
//! fetch-decode-execute cycle.

use vstd::prelude::*;

use crate::error::Chip8Error;
use crate::gfx::GfxMemory;
use crate::keyboard::Keyboard;
use crate::memory::Memory;
use crate::opcode::Opcode;
use crate::opcode::op_address;
use crate::opcode::op_byte;
use crate::opcode::op_category;
use crate::opcode::op_nibble;
use crate::opcode::op_x;
use crate::opcode::op_y;
use crate::register::Register;
use crate::semantics::Core;
use crate::semantics::blank_gfx;
use crate::semantics::collides_before;
use crate::semantics::draw_collides;
use crate::semantics::draw_gfx;
use crate::semantics::draw_result;
use crate::semantics::fetch_word;
use crate::semantics::first_pressed;
use crate::semantics::first_pressed_from;
use crate::semantics::flip;
use crate::semantics::hits_before;
use crate::semantics::lemma_hits_before_full;
use crate::semantics::lemma_hits_before_zero;
use crate::semantics::lemma_hits_step_set;
use crate::semantics::lemma_hits_step_unset;
use crate::semantics::outcome_matches;
use crate::semantics::pc_plus;
use crate::semantics::pixel_index;
use crate::semantics::spec_cycle;
use crate::semantics::spec_execute;
use crate::semantics::sprite_bit;
use crate::semantics::sprite_hits;
use crate::semantics::step_alu;
use crate::semantics::step_misc;
use crate::semantics::tick_timers;
use crate::semantics::wf;
use crate::semantics::wrap8;
use crate::stack::Stack;

verus! {

pub const PROGRAM_START: usize = 0x200;

/// The font sprite set: sixteen glyphs of five rows each, for the hex
/// digits 0 through F. Glyph `d` occupies bytes `5 * d` to `5 * d + 4`.
pub open spec fn font() -> Seq<u8> {
    seq![
        0xF0u8, 0x90, 0x90, 0x90, 0xF0, 0x20, 0x60, 0x20, 0x20, 0x70, 0xF0, 0x10, 0xF0, 0x80, 0xF0,
        0xF0, 0x10, 0xF0, 0x10, 0xF0, 0x90, 0x90, 0xF0, 0x10, 0x10, 0xF0, 0x80, 0xF0, 0x10, 0xF0,
        0xF0, 0x80, 0xF0, 0x90, 0xF0, 0xF0, 0x10, 0x20, 0x40, 0x40, 0xF0, 0x90, 0xF0, 0x90, 0xF0,
        0xF0, 0x90, 0xF0, 0x10, 0xF0, 0xF0, 0x90, 0xF0, 0x90, 0x90, 0xE0, 0x90, 0xE0, 0x90, 0xE0,
        0xF0, 0x80, 0x80, 0x80, 0xF0, 0xE0, 0x90, 0x90, 0x90, 0xE0, 0xF0, 0x80, 0xF0, 0x80, 0xF0,
        0xF0, 0x80, 0xF0, 0x80, 0x80,
    ]
}

/// The font sprite set as bytes in memory order.
fn font_set() -> (r: Vec<u8>)
    ensures
        r@ == font(),
{
    let r: Vec<u8> = vec![
        0xF0u8, 0x90, 0x90, 0x90, 0xF0, 0x20, 0x60, 0x20, 0x20, 0x70, 0xF0, 0x10, 0xF0, 0x80, 0xF0,
        0xF0, 0x10, 0xF0, 0x10, 0xF0, 0x90, 0x90, 0xF0, 0x10, 0x10, 0xF0, 0x80, 0xF0, 0x10, 0xF0,
        0xF0, 0x80, 0xF0, 0x90, 0xF0, 0xF0, 0x10, 0x20, 0x40, 0x40, 0xF0, 0x90, 0xF0, 0x90, 0xF0,
        0xF0, 0x90, 0xF0, 0x10, 0xF0, 0xF0, 0x90, 0xF0, 0x90, 0x90, 0xE0, 0x90, 0xE0, 0x90, 0xE0,
        0xF0, 0x80, 0x80, 0x80, 0xF0, 0xE0, 0x90, 0x90, 0x90, 0xE0, 0xF0, 0x80, 0xF0, 0x80, 0xF0,
        0xF0, 0x80, 0xF0, 0x80, 0x80,
    ];
    proof {
        assert(r@ =~= font());
    }
    r
}

/// The memory contents right after a reset: the font sprite set at the
/// bottom, zero everywhere else.
pub open spec fn reset_mem() -> Seq<u8> {
    Seq::new(
        4096,
        |k: int|
            if 0 <= k < 80 {
                font()[k]
            } else {
                0u8
            },
    )
}

/// One byte from the host's random source.
///
/// Relies on rand::random::<u8>: a byte from the thread-local generator.
/// Nothing is promised of its value.
#[verifier::external_body]
fn random_byte() -> u8 {
    rand::random::<u8>()
}

pub struct Chip8 {
    pub reg_v: Register,
    pub reg_gfx: GfxMemory,
    pub stack: Stack,
    pub keys: Keyboard,
    pub memory: Memory,
    pub program_counter: u16,
    pub delay_timer: u8,
    pub sound_timer: u8,
}

impl View for Chip8 {
    type V = Core;

    open spec fn view(&self) -> Core {
        Core {
            v: self.reg_v.v(),
            i: self.reg_v.reg_i,
            pc: self.program_counter,
            stack: self.stack.v(),
            sp: self.stack.sp(),
            mem: self.memory.v(),
            gfx: self.reg_gfx.v(),
            keys: self.keys.v(),
            dt: self.delay_timer,
            st: self.sound_timer,
        }
    }
}

impl Chip8 {
    /// Every component is well formed.
    pub open spec fn wf(self) -> bool {
        &&& self.reg_v.wf()
        &&& self.reg_gfx.wf()
        &&& self.stack.wf()
        &&& self.keys.wf()
        &&& self.memory.wf()
    }

    /// A machine with every register, timer, memory cell, framebuffer cell
    /// and key slot zero.
    pub fn new() -> (r: Chip8)
        ensures
            r.wf(),
            wf(r@),
            r@.v == Seq::new(16, |k: int| 0u8),
            r@.i == 0,
            r@.pc == 0,
            r@.stack == Seq::new(16, |k: int| 0u16),
            r@.sp == 0,
            r@.mem == Seq::new(4096, |k: int| 0u8),
            r@.gfx == blank_gfx(),
            r@.keys == Seq::new(16, |k: int| 0u8),
            r@.dt == 0,
            r@.st == 0,
    {
        Chip8 {
            reg_v: Register::new(),
            reg_gfx: GfxMemory::new(),
            stack: Stack::new(),
            keys: Keyboard::new(),
            memory: Memory::new(),
            program_counter: 0,
            delay_timer: 0,
            sound_timer: 0,
        }
    }

    /// Reset for a new session: clear the registers and the framebuffer,
    /// point the program counter at the ROM area and reload memory with the
    /// font sprite set. The call stack, the keypad and the timers are not
    /// touched.
    pub fn initialize(&mut self)
        requires
            old(self).wf(),
        ensures
            final(self).wf(),
            final(self)@ == (Core {
                v: Seq::new(16, |k: int| 0u8),
                i: 0u16,
                pc: 0x200u16,
                mem: reset_mem(),
                gfx: blank_gfx(),
                ..old(self)@
            }),
    {
        self.reg_v.clear();
        self.reg_gfx.clear();
        self.program_counter = 0x200;
        self.memory = Memory::new();
        let font_bytes = font_set();
        self.memory.store(0, font_bytes.as_slice());
        proof {
            assert(self.memory.v() =~= reset_mem());
            assert(self@ =~= (Core {
                v: Seq::new(16, |k: int| 0u8),
                i: 0u16,
                pc: 0x200u16,
                mem: reset_mem(),
                gfx: blank_gfx(),
                ..old(self)@
            }));
        }
    }

    /// Copy a ROM image verbatim into memory starting at the ROM area.
    /// The image must fit below the end of memory.
    pub fn load_rom(&mut self, rom: Vec<u8>)
        requires
            old(self).wf(),
            0x200 + rom@.len() <= 4096,
        ensures
            final(self).wf(),
            final(self)@ == (Core {
                mem: Seq::new(
                    4096,
                    |k: int|
                        if 0x200 <= k < 0x200 + rom@.len() {
                            rom@[k - 0x200]
                        } else {
                            old(self)@.mem[k]
                        },
                ),
                ..old(self)@
            }),
    {
        self.memory.store(PROGRAM_START, rom.as_slice());
        proof {
            assert(self.memory.v() =~= Seq::new(
                4096,
                |k: int|
                    if 0x200 <= k < 0x200 + rom@.len() {
                        rom@[k - 0x200]
                    } else {
                        old(self)@.mem[k]
                    },
            ));
            assert(self@ =~= (Core {
                mem: self.memory.v(),
                ..old(self)@
            }));
        }
    }

    /// Fetch the big-endian instruction word at the program counter and
    /// decode it.
    pub fn fetch_opcode(&self) -> (r: Opcode)
        requires
            self.wf(),
            self@.pc + 1 < 4096,
        ensures
            r.wf(),
            r.opcode == fetch_word(self@),
    {
        let index = self.program_counter as usize;
        let word = self.memory.load16(index);
        Opcode::new(word)
    }

    /// XOR-draw the `height`-row sprite at the index register, anchored at
    /// the coordinates held in registers `x` and `y`. The collision flag
    /// (register 0xF) is cleared first, then set exactly when a set sprite
    /// bit lands on an already-lit cell; every cell a set bit lands on is
    /// flipped. The program counter is not touched.
    #[verifier::loop_isolation(false)]
    pub fn display(&mut self, x: usize, y: usize, height: u8)
        requires
            old(self).wf(),
            x < 16,
            y < 16,
            height <= 15,
            height > 0 ==> old(self)@.i + height <= 4096,
        ensures
            final(self).wf(),
            final(self)@ == draw_result(old(self)@, x as int, y as int, height),
    {
        self.reg_v.set(0xF, 0x00);
        let vx = self.reg_v.get(x);
        let vy = self.reg_v.get(y);
        let reg_i = self.reg_v.reg_i as usize;
        let ghost v1 = self@.v;
        let ghost m = self@.mem;
        let ghost gfx0 = self@.gfx;
        let ghost ii = reg_i as int;
        proof {
            lemma_hits_before_zero(gfx0, m, ii, vx, vy);
        }
        let mut collided = false;
        let mut row: usize = 0;
        while row < height as usize
            invariant
                self.wf(),
                row <= height,
                self@.v == v1,
                self@.mem == m,
                self@.i == old(self)@.i,
                self@.pc == old(self)@.pc,
                self@.stack == old(self)@.stack,
                self@.sp == old(self)@.sp,
                self@.keys == old(self)@.keys,
                self@.dt == old(self)@.dt,
                self@.st == old(self)@.st,
                forall|t: int|
                    0 <= t < 2048 ==> self@.gfx[t] == (if hits_before(
                        m,
                        ii,
                        vx,
                        vy,
                        8 * row,
                        t,
                    ) {
                        flip(gfx0[t])
                    } else {
                        gfx0[t]
                    }),
                collided == collides_before(gfx0, m, ii, vx, vy, 8 * row),
            decreases height - row,
        {
            let pixel = self.memory.load8(reg_i + row);
            let mut col: usize = 0;
            while col < 8
                invariant
                    self.wf(),
                    col <= 8,
                    row < height,
                    pixel == m[ii + row],
                    self@.v == v1,
                    self@.mem == m,
                    self@.i == old(self)@.i,
                    self@.pc == old(self)@.pc,
                    self@.stack == old(self)@.stack,
                    self@.sp == old(self)@.sp,
                    self@.keys == old(self)@.keys,
                    self@.dt == old(self)@.dt,
                    self@.st == old(self)@.st,
                    forall|t: int|
                        0 <= t < 2048 ==> self@.gfx[t] == (if hits_before(
                            m,
                            ii,
                            vx,
                            vy,
                            8 * row + col,
                            t,
                        ) {
                            flip(gfx0[t])
                        } else {
                            gfx0[t]
                        }),
                    collided == collides_before(gfx0, m, ii, vx, vy, 8 * row + col),
                decreases 8 - col,
            {
                if pixel & (0x80u8 >> (col as u8)) != 0 {
                    let gfx_position = (vx as usize + col + ((vy as usize + row) * 64)) % 2048;
                    proof {
                        assert(gfx_position == pixel_index(vx, vy, row as int, col as int));
                        assert(sprite_bit(m[ii + row], col as int));
                        lemma_hits_step_set(gfx0, m, ii, vx, vy, row as int, col as int);
                    }
                    let current = self.reg_gfx.pixel(gfx_position);
                    proof {
                        assert(!hits_before(m, ii, vx, vy, 8 * row + col, gfx_position as int));
                        assert(self@.gfx[gfx_position as int] == gfx0[gfx_position as int]);
                        assert(current == gfx0[gfx_position as int]);
                    }
                    if current != 0 {
                        collided = true;
                    }
                    let flipped: u8 = if current == 0 {
                        0xFF
                    } else {
                        0x00
                    };
                    self.reg_gfx.set(gfx_position, flipped);
                    proof {
                        assert forall|t: int| 0 <= t < 2048 implies self@.gfx[t] == (if hits_before(
                            m,
                            ii,
                            vx,
                            vy,
                            8 * row + col + 1,
                            t,
                        ) {
                            flip(gfx0[t])
                        } else {
                            gfx0[t]
                        }) by {
                            assert(hits_before(m, ii, vx, vy, 8 * row + col + 1, t) <==> (
                            hits_before(m, ii, vx, vy, 8 * row + col, t) || t
                                == gfx_position as int));
                        }
                    }
                } else {
                    proof {
                        lemma_hits_step_unset(gfx0, m, ii, vx, vy, row as int, col as int);
                    }
                }
                col = col + 1;
            }
            row = row + 1;
        }
        proof {
            let hn = height as int;
            lemma_hits_before_full(gfx0, m, ii, vx, vy, hn);
            assert(8 * (row as int) == 8 * hn);
            assert forall|t: int| 0 <= t < 2048 implies self@.gfx[t] == draw_gfx(
                gfx0,
                m,
                ii,
                vx,
                vy,
                hn,
            )[t] by {
                assert(self@.gfx[t] == (if hits_before(m, ii, vx, vy, 8 * (row as int), t) {
                    flip(gfx0[t])
                } else {
                    gfx0[t]
                }));
                assert(hits_before(m, ii, vx, vy, 8 * hn, t) <==> sprite_hits(m, ii, vx, vy, hn, t));
            }
            assert(self@.gfx =~= draw_gfx(gfx0, m, ii, vx, vy, hn));
            assert(collided == draw_collides(gfx0, m, ii, vx, vy, hn));
        }
        let ghost gfx_done = self@.gfx;
        let flag: u8 = if collided {
            1
        } else {
            0
        };
        self.reg_v.set(0xF, flag);
        proof {
            assert(self@.gfx == gfx_done);
            assert(self@ =~= draw_result(old(self)@, x as int, y as int, height));
        }
    }

    /// Execute one decoded instruction: dispatch on its category (and, for
    /// categories 0, 8, 0xE and 0xF, on its secondary selector) and follow
    /// `spec_execute` exactly. Every branch advances, loads or leaves the
    /// program counter itself; a fatal error leaves the whole machine
    /// untouched and reports why the interpreter must stop.
    pub fn execute_opcode(&mut self, opcode: Opcode) -> (res: Result<(), Chip8Error>)
        requires
            old(self).wf(),
            opcode.wf(),
            old(self)@.pc < 0xFFF,
        ensures
            final(self).wf(),
            op_category(opcode.opcode) != 0xC ==> outcome_matches(
                old(self)@,
                final(self)@,
                res,
                spec_execute(old(self)@, opcode.opcode, 0),
            ),
            op_category(opcode.opcode) == 0xC ==> exists|rb: u8|
                outcome_matches(
                    old(self)@,
                    final(self)@,
                    res,
                    #[trigger] spec_execute(old(self)@, opcode.opcode, rb),
                ),
    {
        let w = opcode.opcode;
        let x = opcode.x;
        let y = opcode.y;
        let nn = opcode.get_8bit();
        let nib = opcode.get_4bit();
        match opcode.category {
            0 => {
                if nn == 0xE0 {
                    self.reg_gfx.clear();
                    self.program_counter = self.program_counter + 2;
                    proof {
                        assert(self@ =~= (Core {
                            gfx: blank_gfx(),
                            pc: pc_plus(old(self)@, 2),
                            ..old(self)@
                        }));
                    }
                    Ok(())
                } else if nn == 0xEE {
                    if self.stack.get_pointer() == 0 {
                        return Err(Chip8Error::StackUnderflow);
                    }
                    let addr = self.stack.pop();
                    let sum: u32 = addr as u32 + 2;
                    self.program_counter = (sum % 0x10000) as u16;
                    proof {
                        assert(self@ =~= (Core {
                            pc: ((old(self)@.stack[old(self)@.sp as int] + 2) % 0x10000) as u16,
                            sp: (old(self)@.sp - 1) as u16,
                            ..old(self)@
                        }));
                    }
                    Ok(())
                } else {
                    Err(Chip8Error::InvalidOpcode(w, self.program_counter))
                }
            },
            1 => {
                self.program_counter = opcode.address;
                proof {
                    assert(self@ =~= (Core { pc: op_address(w), ..old(self)@ }));
                }
                Ok(())
            },
            2 => {
                if self.stack.get_pointer() >= 15 {
                    return Err(Chip8Error::StackOverflow);
                }
                self.stack.push(self.program_counter);
                self.program_counter = opcode.address;
                proof {
                    assert(self@ =~= (Core {
                        stack: old(self)@.stack.update(old(self)@.sp + 1, old(self)@.pc),
                        sp: (old(self)@.sp + 1) as u16,
                        pc: op_address(w),
                        ..old(self)@
                    }));
                }
                Ok(())
            },
            3 => {
                let vx = self.reg_v.get(x);
                let bump: u16 = if vx == nn {
                    4
                } else {
                    2
                };
                self.program_counter = self.program_counter + bump;
                proof {
                    assert(self@ =~= (Core {
                        pc: pc_plus(
                            old(self)@,
                            if old(self)@.v[op_x(w)] == op_byte(w) {
                                4
                            } else {
                                2
                            },
                        ),
                        ..old(self)@
                    }));
                }
                Ok(())
            },
            4 => {
                let vx = self.reg_v.get(x);
                let bump: u16 = if vx != nn {
                    4
                } else {
                    2
                };
                self.program_counter = self.program_counter + bump;
                proof {
                    assert(self@ =~= (Core {
                        pc: pc_plus(
                            old(self)@,
                            if old(self)@.v[op_x(w)] != op_byte(w) {
                                4
                            } else {
                                2
                            },
                        ),
                        ..old(self)@
                    }));
                }
                Ok(())
            },
            5 => {
                let vx = self.reg_v.get(x);
                let vy = self.reg_v.get(y);
                let bump: u16 = if vx == vy {
                    4
                } else {
                    2
                };
                self.program_counter = self.program_counter + bump;
                proof {
                    assert(self@ =~= (Core {
                        pc: pc_plus(
                            old(self)@,
                            if old(self)@.v[op_x(w)] == old(self)@.v[op_y(w)] {
                                4
                            } else {
                                2
                            },
                        ),
                        ..old(self)@
                    }));
                }
                Ok(())
            },
            6 => {
                self.reg_v.set(x, nn);
                self.program_counter = self.program_counter + 2;
                proof {
                    assert(self@ =~= (Core {
                        v: old(self)@.v.update(op_x(w), op_byte(w)),
                        pc: pc_plus(old(self)@, 2),
                        ..old(self)@
                    }));
                }
                Ok(())
            },
            7 => {
                let vx = self.reg_v.get(x);
                let sum: u16 = vx as u16 + nn as u16;
                self.reg_v.set(x, (sum % 256) as u8);
                self.program_counter = self.program_counter + 2;
                proof {
                    assert(self@ =~= (Core {
                        v: old(self)@.v.update(op_x(w), wrap8(old(self)@.v[op_x(w)] + op_byte(w))),
                        pc: pc_plus(old(self)@, 2),
                        ..old(self)@
                    }));
                }
                Ok(())
            },
            8 => self.execute_alu(opcode),
            9 => {
                let vx = self.reg_v.get(x);
                let vy = self.reg_v.get(y);
                let bump: u16 = if vx != vy {
                    4
                } else {
                    2
                };
                self.program_counter = self.program_counter + bump;
                proof {
                    assert(self@ =~= (Core {
                        pc: pc_plus(
                            old(self)@,
                            if old(self)@.v[op_x(w)] != old(self)@.v[op_y(w)] {
                                4
                            } else {
                                2
                            },
                        ),
                        ..old(self)@
                    }));
                }
                Ok(())
            },
            0xA => {
                self.reg_v.reg_i = opcode.address;
                self.program_counter = self.program_counter + 2;
                proof {
                    assert(self@ =~= (Core {
                        i: op_address(w),
                        pc: pc_plus(old(self)@, 2),
                        ..old(self)@
                    }));
                }
                Ok(())
            },
            0xB => {
                let v0 = self.reg_v.get(0);
                self.program_counter = opcode.address + v0 as u16;
                proof {
                    assert(self@ =~= (Core {
                        pc: (op_address(w) + old(self)@.v[0]) as u16,
                        ..old(self)@
                    }));
                }
                Ok(())
            },
            0xC => {
                let rb = random_byte();
                self.reg_v.set(x, rb & nn);
                self.program_counter = self.program_counter + 2;
                proof {
                    assert(self@ =~= (Core {
                        v: old(self)@.v.update(op_x(w), rb & op_byte(w)),
                        pc: pc_plus(old(self)@, 2),
                        ..old(self)@
                    }));
                    assert(outcome_matches(
                        old(self)@,
                        self@,
                        Ok::<(), Chip8Error>(()),
                        spec_execute(old(self)@, w, rb),
                    ));
                }
                Ok(())
            },
            0xD => {
                if nib > 0 && self.reg_v.reg_i as u32 + nib as u32 > 4096 {
                    return Err(Chip8Error::MemoryOutOfBounds);
                }
                self.display(x, y, nib);
                self.program_counter = self.program_counter + 2;
                proof {
                    assert(self@ =~= (Core {
                        pc: pc_plus(old(self)@, 2),
                        ..draw_result(old(self)@, op_x(w), op_y(w), op_nibble(w))
                    }));
                }
                Ok(())
            },
            0xE => {
                let k = self.reg_v.get(x);
                if nn == 0x9E || nn == 0xA1 {
                    if k > 15 {
                        return Err(Chip8Error::KeyOutOfRange);
                    }
                    let down = self.keys.get(k as usize) != 0;
                    let skip = if nn == 0x9E {
                        down
                    } else {
                        !down
                    };
                    let bump: u16 = if skip {
                        4
                    } else {
                        2
                    };
                    self.program_counter = self.program_counter + bump;
                    proof {
                        assert(self@ =~= (Core {
                            pc: pc_plus(
                                old(self)@,
                                if skip {
                                    4
                                } else {
                                    2
                                },
                            ),
                            ..old(self)@
                        }));
                    }
                    Ok(())
                } else {
                    Err(Chip8Error::InvalidOpcode(w, self.program_counter))
                }
            },
            _ => self.execute_misc(opcode),
        }
    }

    /// One whole machine cycle, following `spec_cycle`: fetch the word at
    /// the program counter, execute it, then count both timers down one
    /// step. On a fatal error the machine is left untouched and the caller
    /// must stop driving it.
    ///
    /// The random-mask instruction draws a byte from the host's random
    /// source; the contract says the cycle followed the model for some such
    /// byte, and for every other instruction that it followed the model
    /// exactly.
    pub fn cycle(&mut self) -> (res: Result<(), Chip8Error>)
        requires
            old(self).wf(),
        ensures
            final(self).wf(),
            exists|rb: u8|
                outcome_matches(
                    old(self)@,
                    final(self)@,
                    res,
                    #[trigger] spec_cycle(old(self)@, rb),
                ),
            (old(self)@.pc + 1 < 4096 && op_category(fetch_word(old(self)@)) != 0xC)
                ==> outcome_matches(old(self)@, final(self)@, res, spec_cycle(old(self)@, 0)),
    {
        if self.program_counter >= 4095 {
            proof {
                assert(outcome_matches(
                    old(self)@,
                    self@,
                    Err::<(), Chip8Error>(Chip8Error::MemoryOutOfBounds),
                    spec_cycle(old(self)@, 0),
                ));
            }
            return Err(Chip8Error::MemoryOutOfBounds);
        }
        let opcode = self.fetch_opcode();
        let ghost w = opcode.opcode;
        let res = self.execute_opcode(opcode);
        let ghost mid = self@;
        match res {
            Err(e) => {
                proof {
                    if op_category(w) != 0xC {
                        assert(outcome_matches(old(self)@, self@, res, spec_cycle(old(self)@, 0)));
                    } else {
                        let rb = choose|rb: u8|
                            outcome_matches(
                                old(self)@,
                                self@,
                                res,
                                #[trigger] spec_execute(old(self)@, w, rb),
                            );
                        assert(outcome_matches(old(self)@, self@, res, spec_cycle(old(self)@, rb)));
                    }
                }
                Err(e)
            },
            Ok(()) => {
                if self.delay_timer > 0 {
                    self.delay_timer = self.delay_timer - 1;
                }
                if self.sound_timer > 0 {
                    self.sound_timer = self.sound_timer - 1;
                }
                proof {
                    assert(self@ =~= tick_timers(mid));
                    if op_category(w) != 0xC {
                        assert(outcome_matches(
                            old(self)@,
                            self@,
                            Ok::<(), Chip8Error>(()),
                            spec_cycle(old(self)@, 0),
                        ));
                    } else {
                        let rb = choose|rb: u8|
                            outcome_matches(
                                old(self)@,
                                mid,
                                Ok::<(), Chip8Error>(()),
                                #[trigger] spec_execute(old(self)@, w, rb),
                            );
                        assert(outcome_matches(
                            old(self)@,
                            self@,
                            Ok::<(), Chip8Error>(()),
                            spec_cycle(old(self)@, rb),
                        ));
                    }
                }
                Ok(())
            },
        }
    }

    /// The arithmetic and logic instructions between two registers
    /// (category 8), dispatched on the low nibble.
    fn execute_alu(&mut self, opcode: Opcode) -> (res: Result<(), Chip8Error>)
        requires
            old(self).wf(),
            opcode.wf(),
            old(self)@.pc < 0xFFF,
            op_category(opcode.opcode) == 8,
        ensures
            final(self).wf(),
            outcome_matches(
                old(self)@,
                final(self)@,
                res,
                step_alu(old(self)@, opcode.opcode),
            ),
    {
        let w = opcode.opcode;
        let x = opcode.x;
        let y = opcode.y;
        let nib = opcode.get_4bit();
        let vx = self.reg_v.get(x);
        let vy = self.reg_v.get(y);
        match nib {
            0 => {
                self.reg_v.set(x, vy);
                self.program_counter = self.program_counter + 2;
                proof {
                    assert(self@ =~= (Core {
                        v: old(self)@.v.update(op_x(w), old(self)@.v[op_y(w)]),
                        pc: pc_plus(old(self)@, 2),
                        ..old(self)@
                    }));
                }
                Ok(())
            },
            1 => {
                self.reg_v.set(x, vx | vy);
                self.program_counter = self.program_counter + 2;
                proof {
                    assert(self@ =~= (Core {
                        v: old(self)@.v.update(op_x(w), old(self)@.v[op_x(w)] | old(self)@.v[op_y(w)]),
                        pc: pc_plus(old(self)@, 2),
                        ..old(self)@
                    }));
                }
                Ok(())
            },
            2 => {
                self.reg_v.set(x, vx & vy);
                self.program_counter = self.program_counter + 2;
                proof {
                    assert(self@ =~= (Core {
                        v: old(self)@.v.update(op_x(w), old(self)@.v[op_x(w)] & old(self)@.v[op_y(w)]),
                        pc: pc_plus(old(self)@, 2),
                        ..old(self)@
                    }));
                }
                Ok(())
            },
            3 => {
                self.reg_v.set(x, vx ^ vy);
                self.program_counter = self.program_counter + 2;
                proof {
                    assert(self@ =~= (Core {
                        v: old(self)@.v.update(op_x(w), old(self)@.v[op_x(w)] ^ old(self)@.v[op_y(w)]),
                        pc: pc_plus(old(self)@, 2),
                        ..old(self)@
                    }));
                }
                Ok(())
            },
            4 => {
                let sum: u16 = vx as u16 + vy as u16;
                let carry: u8 = if sum > 255 {
                    1
                } else {
                    0
                };
                self.reg_v.set(0xF, carry);
                self.reg_v.set(x, (sum % 256) as u8);
                self.program_counter = self.program_counter + 2;
                proof {
                    assert(self@ =~= (Core {
                        v: old(self)@.v.update(15, carry).update(
                            op_x(w),
                            wrap8(old(self)@.v[op_x(w)] + old(self)@.v[op_y(w)]),
                        ),
                        pc: pc_plus(old(self)@, 2),
                        ..old(self)@
                    }));
                }
                Ok(())
            },
            5 => {
                let borrow: u8 = if vx >= vy {
                    1
                } else {
                    0
                };
                self.reg_v.set(0xF, borrow);
                self.reg_v.set(x, ((vx as u16 + 256 - vy as u16) % 256) as u8);
                self.program_counter = self.program_counter + 2;
                proof {
                    assert(self@ =~= (Core {
                        v: old(self)@.v.update(15, borrow).update(
                            op_x(w),
                            wrap8(old(self)@.v[op_x(w)] + 256 - old(self)@.v[op_y(w)]),
                        ),
                        pc: pc_plus(old(self)@, 2),
                        ..old(self)@
                    }));
                }
                Ok(())
            },
            6 => {
                self.reg_v.set(0xF, vx % 2);
                let cur = self.reg_v.get(x);
                self.reg_v.set(x, cur / 2);
                self.program_counter = self.program_counter + 2;
                proof {
                    let v1 = old(self)@.v.update(15, (old(self)@.v[op_x(w)] % 2) as u8);
                    assert(self@ =~= (Core {
                        v: v1.update(op_x(w), (v1[op_x(w)] / 2) as u8),
                        pc: pc_plus(old(self)@, 2),
                        ..old(self)@
                    }));
                }
                Ok(())
            },
            7 => {
                let borrow: u8 = if vy >= vx {
                    1
                } else {
                    0
                };
                self.reg_v.set(0xF, borrow);
                self.reg_v.set(x, ((vy as u16 + 256 - vx as u16) % 256) as u8);
                self.program_counter = self.program_counter + 2;
                proof {
                    assert(self@ =~= (Core {
                        v: old(self)@.v.update(15, borrow).update(
                            op_x(w),
                            wrap8(old(self)@.v[op_y(w)] + 256 - old(self)@.v[op_x(w)]),
                        ),
                        pc: pc_plus(old(self)@, 2),
                        ..old(self)@
                    }));
                }
                Ok(())
            },
            0xE => {
                self.reg_v.set(0xF, vx / 128);
                let cur = self.reg_v.get(x);
                self.reg_v.set(x, ((cur as u16 * 2) % 256) as u8);
                self.program_counter = self.program_counter + 2;
                proof {
                    let v1 = old(self)@.v.update(15, (old(self)@.v[op_x(w)] / 128) as u8);
                    assert(self@ =~= (Core {
                        v: v1.update(op_x(w), wrap8(2 * v1[op_x(w)])),
                        pc: pc_plus(old(self)@, 2),
                        ..old(self)@
                    }));
                }
                Ok(())
            },
            _ => Err(Chip8Error::InvalidOpcode(w, self.program_counter)),
        }
    }

    /// The timer, keypad, index, font, BCD and block-transfer instructions
    /// (category 0xF), dispatched on the immediate byte.
    #[verifier::loop_isolation(false)]
    fn execute_misc(&mut self, opcode: Opcode) -> (res: Result<(), Chip8Error>)
        requires
            old(self).wf(),
            opcode.wf(),
            old(self)@.pc < 0xFFF,
            op_category(opcode.opcode) >= 0xF,
        ensures
            final(self).wf(),
            outcome_matches(
                old(self)@,
                final(self)@,
                res,
                step_misc(old(self)@, opcode.opcode),
            ),
    {
        let w = opcode.opcode;
        let x = opcode.x;
        let nn = opcode.get_8bit();
        let vx = self.reg_v.get(x);
        if nn == 0x07 {
            self.reg_v.set(x, self.delay_timer);
            self.program_counter = self.program_counter + 2;
            proof {
                assert(self@ =~= (Core {
                    v: old(self)@.v.update(op_x(w), old(self)@.dt),
                    pc: pc_plus(old(self)@, 2),
                    ..old(self)@
                }));
            }
            Ok(())
        } else if nn == 0x0A {
            let mut index: usize = 0;
            while index < 16
                invariant
                    self.wf(),
                    index <= 16,
                    self@ == old(self)@,
                    first_pressed(old(self)@.keys) == first_pressed_from(
                        old(self)@.keys,
                        index as int,
                    ),
                decreases 16 - index,
            {
                if self.keys.get(index) != 0 {
                    self.reg_v.set(x, index as u8);
                    self.program_counter = self.program_counter + 2;
                    proof {
                        assert(first_pressed(old(self)@.keys) == Some(index as u8));
                        assert(self@ =~= (Core {
                            v: old(self)@.v.update(op_x(w), index as u8),
                            pc: pc_plus(old(self)@, 2),
                            ..old(self)@
                        }));
                    }
                    return Ok(());
                }
                index = index + 1;
            }
            proof {
                assert(first_pressed(old(self)@.keys) is None);
            }
            Ok(())
        } else if nn == 0x15 {
            self.delay_timer = vx;
            self.program_counter = self.program_counter + 2;
            proof {
                assert(self@ =~= (Core {
                    dt: old(self)@.v[op_x(w)],
                    pc: pc_plus(old(self)@, 2),
                    ..old(self)@
                }));
            }
            Ok(())
        } else if nn == 0x18 {
            self.sound_timer = vx;
            self.program_counter = self.program_counter + 2;
            proof {
                assert(self@ =~= (Core {
                    st: old(self)@.v[op_x(w)],
                    pc: pc_plus(old(self)@, 2),
                    ..old(self)@
                }));
            }
            Ok(())
        } else if nn == 0x1E {
            let sum: u32 = self.reg_v.reg_i as u32 + vx as u32;
            let over: u8 = if sum > 0xFFF {
                1
            } else {
                0
            };
            self.reg_v.set(0xF, over);
            self.reg_v.reg_i = (sum % 0x10000) as u16;
            self.program_counter = self.program_counter + 2;
            proof {
                assert(self@ =~= (Core {
                    v: old(self)@.v.update(15, over),
                    i: ((old(self)@.i + old(self)@.v[op_x(w)]) % 0x10000) as u16,
                    pc: pc_plus(old(self)@, 2),
                    ..old(self)@
                }));
            }
            Ok(())
        } else if nn == 0x29 {
            self.reg_v.reg_i = vx as u16 * 5;
            self.program_counter = self.program_counter + 2;
            proof {
                assert(self@ =~= (Core {
                    i: (old(self)@.v[op_x(w)] * 5) as u16,
                    pc: pc_plus(old(self)@, 2),
                    ..old(self)@
                }));
            }
            Ok(())
        } else if nn == 0x33 {
            if self.reg_v.reg_i > 4093 {
                return Err(Chip8Error::MemoryOutOfBounds);
            }
            let i0 = self.reg_v.reg_i as usize;
            self.memory.store8(i0, vx / 100);
            self.memory.store8(i0 + 1, (vx / 10) % 10);
            self.memory.store8(i0 + 2, vx % 10);
            self.program_counter = self.program_counter + 2;
            proof {
                assert(self@ =~= (Core {
                    mem: old(self)@.mem.update(
                        old(self)@.i as int,
                        (old(self)@.v[op_x(w)] / 100) as u8,
                    ).update(old(self)@.i + 1, ((old(self)@.v[op_x(w)] / 10) % 10) as u8).update(
                        old(self)@.i + 2,
                        (old(self)@.v[op_x(w)] % 10) as u8,
                    ),
                    pc: pc_plus(old(self)@, 2),
                    ..old(self)@
                }));
            }
            Ok(())
        } else if nn == 0x55 {
            if self.reg_v.reg_i as usize + x > 4095 {
                return Err(Chip8Error::MemoryOutOfBounds);
            }
            let i0 = self.reg_v.reg_i as usize;
            let mut k: usize = 0;
            while k < x + 1
                invariant
                    self.wf(),
                    k <= x + 1,
                    self@.v == old(self)@.v,
                    self@.i == old(self)@.i,
                    self@.pc == old(self)@.pc,
                    self@.stack == old(self)@.stack,
                    self@.sp == old(self)@.sp,
                    self@.gfx == old(self)@.gfx,
                    self@.keys == old(self)@.keys,
                    self@.dt == old(self)@.dt,
                    self@.st == old(self)@.st,
                    forall|j: int|
                        0 <= j < 4096 ==> #[trigger] self@.mem[j] == (if i0 <= j < i0 + k {
                            old(self)@.v[j - i0]
                        } else {
                            old(self)@.mem[j]
                        }),
                decreases x + 1 - k,
            {
                let ghost prev = self@.mem;
                let value = self.reg_v.get(k);
                self.memory.store8(i0 + k, value);
                proof {
                    assert(self@.mem == prev.update(i0 + k, value));
                }
                k = k + 1;
            }
            proof {
                assert(self@.mem =~= Seq::new(
                    4096,
                    |j: int|
                        if old(self)@.i <= j <= old(self)@.i + op_x(w) {
                            old(self)@.v[j - old(self)@.i]
                        } else {
                            old(self)@.mem[j]
                        },
                ));
            }
            self.program_counter = self.program_counter + 2;
            proof {
                assert(self@ =~= (Core {
                    mem: Seq::new(
                        4096,
                        |j: int|
                            if old(self)@.i <= j <= old(self)@.i + op_x(w) {
                                old(self)@.v[j - old(self)@.i]
                            } else {
                                old(self)@.mem[j]
                            },
                    ),
                    pc: pc_plus(old(self)@, 2),
                    ..old(self)@
                }));
            }
            Ok(())
        } else if nn == 0x65 {
            if self.reg_v.reg_i as usize + x > 4095 {
                return Err(Chip8Error::MemoryOutOfBounds);
            }
            let i0 = self.reg_v.reg_i as usize;
            let mut k: usize = 0;
            while k < x + 1
                invariant
                    self.wf(),
                    k <= x + 1,
                    self@.i == old(self)@.i,
                    self@.pc == old(self)@.pc,
                    self@.stack == old(self)@.stack,
                    self@.sp == old(self)@.sp,
                    self@.mem == old(self)@.mem,
                    self@.gfx == old(self)@.gfx,
                    self@.keys == old(self)@.keys,
                    self@.dt == old(self)@.dt,
                    self@.st == old(self)@.st,
                    forall|j: int|
                        0 <= j < 16 ==> #[trigger] self@.v[j] == (if 0 <= j < k {
                            old(self)@.mem[old(self)@.i + j]
                        } else {
                            old(self)@.v[j]
                        }),
                decreases x + 1 - k,
            {
                let ghost prev = self@.v;
                let value = self.memory.load8(i0 + k);
                self.reg_v.set(k, value);
                proof {
                    assert(self@.v == prev.update(k as int, value));
                }
                k = k + 1;
            }
            proof {
                assert(self@.v =~= Seq::new(
                    16,
                    |j: int|
                        if 0 <= j <= op_x(w) {
                            old(self)@.mem[old(self)@.i + j]
                        } else {
                            old(self)@.v[j]
                        },
                ));
            }
            self.program_counter = self.program_counter + 2;
            proof {
                assert(self@ =~= (Core {
                    v: Seq::new(
                        16,
                        |j: int|
                            if 0 <= j <= op_x(w) {
                                old(self)@.mem[old(self)@.i + j]
                            } else {
                                old(self)@.v[j]
                            },
                    ),
                    pc: pc_plus(old(self)@, 2),
                    ..old(self)@
                }));
            }
            Ok(())
        } else {
            Err(Chip8Error::InvalidOpcode(w, self.program_counter))
        }
    }

    /// The program counter.
    pub fn program_counter(&self) -> (r: u16)
        ensures
            r == self@.pc,
    {
        self.program_counter
    }

    /// The value of general-purpose register `index`.
    pub fn v(&self, index: usize) -> (r: u8)
        requires
            self.wf(),
            index < 16,
        ensures
            r == self@.v[index as int],
    {
        self.reg_v.get(index)
    }

    /// Write general-purpose register `index`.
    pub fn set_v(&mut self, index: usize, value: u8)
        requires
            old(self).wf(),
            index < 16,
        ensures
            final(self).wf(),
            final(self)@ == (Core { v: old(self)@.v.update(index as int, value), ..old(self)@ }),
    {
        self.reg_v.set(index, value);
        proof {
            assert(self@ =~= (Core { v: old(self)@.v.update(index as int, value), ..old(self)@ }));
        }
    }

    /// The index register.
    pub fn reg_i(&self) -> (r: u16)
        ensures
            r == self@.i,
    {
        self.reg_v.reg_i
    }

    /// Write the index register.
    pub fn set_reg_i(&mut self, value: u16)
        ensures
            final(self).wf() == old(self).wf(),
            final(self)@ == (Core { i: value, ..old(self)@ }),
    {
        self.reg_v.reg_i = value;
        proof {
            assert(self@ =~= (Core { i: value, ..old(self)@ }));
        }
    }

    /// The delay timer.
    pub fn delay_timer(&self) -> (r: u8)
        ensures
            r == self@.dt,
    {
        self.delay_timer
    }

    /// Write the delay timer.
    pub fn set_delay_timer(&mut self, value: u8)
        ensures
            final(self).wf() == old(self).wf(),
            final(self)@ == (Core { dt: value, ..old(self)@ }),
    {
        self.delay_timer = value;
        proof {
            assert(self@ =~= (Core { dt: value, ..old(self)@ }));
        }
    }

    /// The sound timer.
    pub fn sound_timer(&self) -> (r: u8)
        ensures
            r == self@.st,
    {
        self.sound_timer
    }

    /// Write the sound timer.
    pub fn set_sound_timer(&mut self, value: u8)
        ensures
            final(self).wf() == old(self).wf(),
            final(self)@ == (Core { st: value, ..old(self)@ }),
    {
        self.sound_timer = value;
        proof {
            assert(self@ =~= (Core { st: value, ..old(self)@ }));
        }
    }

    /// The state of key `index`.
    pub fn key(&self, index: usize) -> (r: u8)
        requires
            self.wf(),
            index < 16,
        ensures
            r == self@.keys[index as int],
    {
        self.keys.get(index)
    }

    /// Record key `index` as down (non-zero) or up (zero). This is the
    /// whole input boundary: the input layer maps host keys to indices
    /// 0x0 through 0xF and writes them here.
    pub fn set_key(&mut self, index: usize, value: u8)
        requires
            old(self).wf(),
            index < 16,
        ensures
            final(self).wf(),
            final(self)@ == (Core {
                keys: old(self)@.keys.update(index as int, value),
                ..old(self)@
            }),
    {
        self.keys.set(index, value);
        proof {
            assert(self@ =~= (Core {
                keys: old(self)@.keys.update(index as int, value),
                ..old(self)@
            }));
        }
    }

    /// The memory byte at `address`.
    pub fn read_mem(&self, address: usize) -> (r: u8)
        requires
            self.wf(),
            address < 4096,
        ensures
            r == self@.mem[address as int],
    {
        self.memory.load8(address)
    }

    /// Write one memory byte at `address`.
    pub fn write_mem(&mut self, address: usize, value: u8)
        requires
            old(self).wf(),
            address < 4096,
        ensures
            final(self).wf(),
            final(self)@ == (Core {
                mem: old(self)@.mem.update(address as int, value),
                ..old(self)@
            }),
    {
        self.memory.store8(address, value);
        proof {
            assert(self@ =~= (Core {
                mem: old(self)@.mem.update(address as int, value),
                ..old(self)@
            }));
        }
    }

    /// Read-only access to the framebuffer, for the presentation layer.
    pub fn gfx(&self) -> (r: &GfxMemory)
        ensures
            r == &self.reg_gfx,
    {
        &self.reg_gfx
    }

    /// Read-only access to the call stack.
    pub fn stack(&self) -> (r: &Stack)
        ensures
            r == &self.stack,
    {
        &self.stack
    }
}

} // verus!

