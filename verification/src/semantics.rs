//! The mathematical model of the machine and of one fetch-decode-execute
//! step.
//!
//! `Core` is the machine state as mathematics; `spec_execute` maps a state
//! and an instruction word to the next state, or to the fatal error on which
//! the interpreter halts; `spec_cycle` adds the instruction fetch and the
//! timer countdown. The executable interpreter is proved to follow these
//! functions exactly, so every per-instruction rule below is the authority
//! on what the interpreter does.
//!
//! Two behavioral choices this model pins down:
//! - both timers count down once per executed instruction, after the
//!   instruction's own effect;
//! - an unrecognized secondary opcode, a full or empty call stack, and an
//!   access outside an address space all halt the machine with the state
//!   unchanged.

use vstd::prelude::*;

use crate::error::Chip8Error;
use crate::opcode::op_address;
use crate::opcode::op_byte;
use crate::opcode::op_category;
use crate::opcode::op_nibble;
use crate::opcode::op_x;
use crate::opcode::op_y;

verus! {

/// The machine state: general registers, index register, program counter,
/// call stack with its pointer, memory, framebuffer, keypad and the two
/// timers.
#[verifier::ext_equal]
pub ghost struct Core {
    pub v: Seq<u8>,
    pub i: u16,
    pub pc: u16,
    pub stack: Seq<u16>,
    pub sp: u16,
    pub mem: Seq<u8>,
    pub gfx: Seq<u8>,
    pub keys: Seq<u8>,
    pub dt: u8,
    pub st: u8,
}

/// Every component has its fixed size and the stack pointer names a slot.
pub open spec fn wf(s: Core) -> bool {
    &&& s.v.len() == 16
    &&& s.stack.len() == 16
    &&& s.sp <= 15
    &&& s.mem.len() == 4096
    &&& s.gfx.len() == 2048
    &&& s.keys.len() == 16
}

/// An 8-bit wraparound of a non-negative value.
pub open spec fn wrap8(n: int) -> u8
    recommends
        n >= 0,
{
    (n % 256) as u8
}

/// The program counter advanced past `k` more bytes.
pub open spec fn pc_plus(s: Core, k: int) -> u16 {
    (s.pc + k) as u16
}

/// The big-endian instruction word at the program counter.
pub open spec fn fetch_word(s: Core) -> u16
    recommends
        wf(s),
        s.pc + 1 < 4096,
{
    (s.mem[s.pc as int] * 256 + s.mem[s.pc as int + 1]) as u16
}

/// An all-dark framebuffer.
pub open spec fn blank_gfx() -> Seq<u8> {
    Seq::new(2048, |t: int| 0u8)
}

/// The flattened framebuffer cell a sprite pixel lands on: column `col` of
/// row `row` of a sprite anchored at (`vx`, `vy`). Coordinates wrap by
/// taking the linearized row-major index modulo the grid size.
pub open spec fn pixel_index(vx: u8, vy: u8, row: int, col: int) -> int {
    (vx + col + (vy + row) * 64) % 2048
}

/// Whether bit `col` (most significant first) of sprite row byte `b` is set.
pub open spec fn sprite_bit(b: u8, col: int) -> bool
    recommends
        0 <= col < 8,
{
    b & (0x80u8 >> (col as u8)) != 0
}

/// The XOR-flip of one binary cell: a dark cell lights fully, a lit cell
/// goes dark.
pub open spec fn flip(p: u8) -> u8 {
    if p == 0 {
        0xFFu8
    } else {
        0x00u8
    }
}

/// Whether some set sprite bit lands on cell `t`: drawing flips exactly the
/// cells this holds of.
pub open spec fn sprite_hits(mem: Seq<u8>, i: int, vx: u8, vy: u8, n: int, t: int) -> bool {
    exists|r: int, c: int|
        0 <= r < n && 0 <= c < 8 && sprite_bit(mem[i + r], c) && #[trigger] pixel_index(
            vx,
            vy,
            r,
            c,
        ) == t
}

/// The framebuffer after drawing the `n`-row sprite at `mem[i..i+n]`
/// anchored at (`vx`, `vy`): every cell a set sprite bit lands on is
/// XOR-flipped, every other cell keeps its value.
pub open spec fn draw_gfx(gfx: Seq<u8>, mem: Seq<u8>, i: int, vx: u8, vy: u8, n: int) -> Seq<u8> {
    Seq::new(
        2048,
        |t: int|
            if sprite_hits(mem, i, vx, vy, n, t) {
                flip(gfx[t])
            } else {
                gfx[t]
            },
    )
}

/// Whether the draw collides: some set sprite bit lands on a cell that was
/// already lit before the draw.
pub open spec fn draw_collides(gfx: Seq<u8>, mem: Seq<u8>, i: int, vx: u8, vy: u8, n: int) -> bool {
    exists|r: int, c: int|
        0 <= r < n && 0 <= c < 8 && sprite_bit(mem[i + r], c) && gfx[#[trigger] pixel_index(
            vx,
            vy,
            r,
            c,
        )] != 0
}

/// Whether some set sprite bit among the first `p` pixel positions (in row
/// major order: position `8 * row + col`) lands on cell `t`. At `p == 8 * n`
/// this is `sprite_hits` for the whole `n`-row sprite; the drawing loop
/// grows `p` one pixel at a time.
pub open spec fn hits_before(mem: Seq<u8>, i: int, vx: u8, vy: u8, p: int, t: int) -> bool {
    exists|r: int, c: int|
        0 <= r && 0 <= c < 8 && 8 * r + c < p && sprite_bit(mem[i + r], c) && #[trigger] pixel_index(
            vx,
            vy,
            r,
            c,
        ) == t
}

/// Whether some set sprite bit among the first `p` pixel positions lands on
/// a cell of `gfx` that is lit.
pub open spec fn collides_before(
    gfx: Seq<u8>,
    mem: Seq<u8>,
    i: int,
    vx: u8,
    vy: u8,
    p: int,
) -> bool {
    exists|r: int, c: int|
        0 <= r && 0 <= c < 8 && 8 * r + c < p && sprite_bit(mem[i + r], c) && gfx[
            #[trigger] pixel_index(vx, vy, r, c)
        ] != 0
}

/// Distinct pixel positions of one sprite land on distinct framebuffer
/// cells: row distances stay under 32 rows and column distances under one
/// row, so the linearized offsets differ by less than the grid size.
pub proof fn lemma_pixel_index_injective(vx: u8, vy: u8, r1: int, c1: int, r2: int, c2: int)
    requires
        0 <= r1 < 16,
        0 <= c1 < 8,
        0 <= r2 < 16,
        0 <= c2 < 8,
        !(r1 == r2 && c1 == c2),
    ensures
        pixel_index(vx, vy, r1, c1) != pixel_index(vx, vy, r2, c2),
{
    let a1 = vx + c1 + (vy + r1) * 64;
    let a2 = vx + c2 + (vy + r2) * 64;
    assert(a1 - a2 == (c1 - c2) + (r1 - r2) * 64);
    if pixel_index(vx, vy, r1, c1) == pixel_index(vx, vy, r2, c2) {
        vstd::arithmetic::div_mod::lemma_fundamental_div_mod(a1, 2048);
        vstd::arithmetic::div_mod::lemma_fundamental_div_mod(a2, 2048);
        let q = a1 / 2048 - a2 / 2048;
        assert(a1 - a2 == 2048 * q);
        assert(q != 0 ==> 2048 * q >= 2048 || 2048 * q <= -2048);
        assert(false);
    }
}

/// Extending the drawn prefix by a set sprite bit at (`row`, `col`) adds
/// exactly the cell that bit lands on, a cell no earlier pixel touched.
pub proof fn lemma_hits_step_set(
    gfx: Seq<u8>,
    mem: Seq<u8>,
    i: int,
    vx: u8,
    vy: u8,
    row: int,
    col: int,
)
    requires
        0 <= row < 16,
        0 <= col < 8,
        sprite_bit(mem[i + row], col),
    ensures
        !hits_before(mem, i, vx, vy, 8 * row + col, pixel_index(vx, vy, row, col)),
        forall|t: int|
            #[trigger] hits_before(mem, i, vx, vy, 8 * row + col + 1, t) <==> (hits_before(
                mem,
                i,
                vx,
                vy,
                8 * row + col,
                t,
            ) || t == pixel_index(vx, vy, row, col)),
        collides_before(gfx, mem, i, vx, vy, 8 * row + col + 1) <==> (collides_before(
            gfx,
            mem,
            i,
            vx,
            vy,
            8 * row + col,
        ) || gfx[pixel_index(vx, vy, row, col)] != 0),
{
    let p = 8 * row + col;
    let idx = pixel_index(vx, vy, row, col);
    assert(!hits_before(mem, i, vx, vy, p, idx)) by {
        if hits_before(mem, i, vx, vy, p, idx) {
            let (r, c) = choose|r: int, c: int|
                0 <= r && 0 <= c < 8 && 8 * r + c < p && sprite_bit(mem[i + r], c)
                    && #[trigger] pixel_index(vx, vy, r, c) == idx;
            assert(r < 16);
            assert(!(r == row && c == col));
            lemma_pixel_index_injective(vx, vy, r, c, row, col);
            assert(false);
        }
    }
    assert forall|t: int|
        hits_before(mem, i, vx, vy, p + 1, t) <==> (hits_before(mem, i, vx, vy, p, t) || t
            == idx) by {
        if hits_before(mem, i, vx, vy, p + 1, t) {
            let (r, c) = choose|r: int, c: int|
                0 <= r && 0 <= c < 8 && 8 * r + c < p + 1 && sprite_bit(mem[i + r], c)
                    && #[trigger] pixel_index(vx, vy, r, c) == t;
            if 8 * r + c < p {
                assert(hits_before(mem, i, vx, vy, p, t));
            } else {
                assert(r == row && c == col);
                assert(t == idx);
            }
        }
        if hits_before(mem, i, vx, vy, p, t) {
            let (r, c) = choose|r: int, c: int|
                0 <= r && 0 <= c < 8 && 8 * r + c < p && sprite_bit(mem[i + r], c)
                    && #[trigger] pixel_index(vx, vy, r, c) == t;
            assert(8 * r + c < p + 1);
            assert(hits_before(mem, i, vx, vy, p + 1, t));
        }
        if t == idx {
            assert(8 * row + col < p + 1 && sprite_bit(mem[i + row], col) && pixel_index(
                vx,
                vy,
                row,
                col,
            ) == t);
            assert(hits_before(mem, i, vx, vy, p + 1, t));
        }
    }
    assert(collides_before(gfx, mem, i, vx, vy, p + 1) <==> (collides_before(gfx, mem, i, vx, vy, p)
        || gfx[idx] != 0)) by {
        if collides_before(gfx, mem, i, vx, vy, p + 1) {
            let (r, c) = choose|r: int, c: int|
                0 <= r && 0 <= c < 8 && 8 * r + c < p + 1 && sprite_bit(mem[i + r], c) && gfx[
                    #[trigger] pixel_index(vx, vy, r, c)
                ] != 0;
            if 8 * r + c < p {
                assert(collides_before(gfx, mem, i, vx, vy, p));
            } else {
                assert(r == row && c == col);
            }
        }
        if collides_before(gfx, mem, i, vx, vy, p) {
            let (r, c) = choose|r: int, c: int|
                0 <= r && 0 <= c < 8 && 8 * r + c < p && sprite_bit(mem[i + r], c) && gfx[
                    #[trigger] pixel_index(vx, vy, r, c)
                ] != 0;
            assert(8 * r + c < p + 1);
            assert(collides_before(gfx, mem, i, vx, vy, p + 1));
        }
        if gfx[idx] != 0 {
            assert(8 * row + col < p + 1 && sprite_bit(mem[i + row], col) && gfx[pixel_index(
                vx,
                vy,
                row,
                col,
            )] != 0);
            assert(collides_before(gfx, mem, i, vx, vy, p + 1));
        }
    }
}

/// Extending the drawn prefix by an unset sprite bit changes nothing.
pub proof fn lemma_hits_step_unset(
    gfx: Seq<u8>,
    mem: Seq<u8>,
    i: int,
    vx: u8,
    vy: u8,
    row: int,
    col: int,
)
    requires
        0 <= row,
        0 <= col < 8,
        !sprite_bit(mem[i + row], col),
    ensures
        forall|t: int|
            #[trigger] hits_before(mem, i, vx, vy, 8 * row + col + 1, t) <==> hits_before(
                mem,
                i,
                vx,
                vy,
                8 * row + col,
                t,
            ),
        collides_before(gfx, mem, i, vx, vy, 8 * row + col + 1) <==> collides_before(
            gfx,
            mem,
            i,
            vx,
            vy,
            8 * row + col,
        ),
{
    let p = 8 * row + col;
    assert forall|t: int|
        hits_before(mem, i, vx, vy, p + 1, t) <==> hits_before(mem, i, vx, vy, p, t) by {
        if hits_before(mem, i, vx, vy, p + 1, t) {
            let (r, c) = choose|r: int, c: int|
                0 <= r && 0 <= c < 8 && 8 * r + c < p + 1 && sprite_bit(mem[i + r], c)
                    && #[trigger] pixel_index(vx, vy, r, c) == t;
            assert(!(r == row && c == col));
            assert(8 * r + c < p);
            assert(hits_before(mem, i, vx, vy, p, t));
        }
        if hits_before(mem, i, vx, vy, p, t) {
            let (r, c) = choose|r: int, c: int|
                0 <= r && 0 <= c < 8 && 8 * r + c < p && sprite_bit(mem[i + r], c)
                    && #[trigger] pixel_index(vx, vy, r, c) == t;
            assert(hits_before(mem, i, vx, vy, p + 1, t));
        }
    }
    assert(collides_before(gfx, mem, i, vx, vy, p + 1) <==> collides_before(
        gfx,
        mem,
        i,
        vx,
        vy,
        p,
    )) by {
        if collides_before(gfx, mem, i, vx, vy, p + 1) {
            let (r, c) = choose|r: int, c: int|
                0 <= r && 0 <= c < 8 && 8 * r + c < p + 1 && sprite_bit(mem[i + r], c) && gfx[
                    #[trigger] pixel_index(vx, vy, r, c)
                ] != 0;
            assert(!(r == row && c == col));
            assert(8 * r + c < p);
            assert(collides_before(gfx, mem, i, vx, vy, p));
        }
        if collides_before(gfx, mem, i, vx, vy, p) {
            let (r, c) = choose|r: int, c: int|
                0 <= r && 0 <= c < 8 && 8 * r + c < p && sprite_bit(mem[i + r], c) && gfx[
                    #[trigger] pixel_index(vx, vy, r, c)
                ] != 0;
            assert(collides_before(gfx, mem, i, vx, vy, p + 1));
        }
    }
}

/// Before any pixel is drawn nothing has been hit.
pub proof fn lemma_hits_before_zero(gfx: Seq<u8>, mem: Seq<u8>, i: int, vx: u8, vy: u8)
    ensures
        forall|t: int| !#[trigger] hits_before(mem, i, vx, vy, 0, t),
        !collides_before(gfx, mem, i, vx, vy, 0),
{
}

/// After all `8 * n` pixel positions of an `n`-row sprite, the prefix
/// predicates say exactly what the whole-sprite predicates say.
pub proof fn lemma_hits_before_full(gfx: Seq<u8>, mem: Seq<u8>, i: int, vx: u8, vy: u8, n: int)
    requires
        0 <= n,
    ensures
        forall|t: int|
            #[trigger] hits_before(mem, i, vx, vy, 8 * n, t) <==> sprite_hits(mem, i, vx, vy, n, t),
        collides_before(gfx, mem, i, vx, vy, 8 * n) <==> draw_collides(gfx, mem, i, vx, vy, n),
{
    assert forall|t: int|
        hits_before(mem, i, vx, vy, 8 * n, t) <==> sprite_hits(mem, i, vx, vy, n, t) by {
        if hits_before(mem, i, vx, vy, 8 * n, t) {
            let (r, c) = choose|r: int, c: int|
                0 <= r && 0 <= c < 8 && 8 * r + c < 8 * n && sprite_bit(mem[i + r], c)
                    && #[trigger] pixel_index(vx, vy, r, c) == t;
            assert(r < n);
            assert(sprite_hits(mem, i, vx, vy, n, t));
        }
        if sprite_hits(mem, i, vx, vy, n, t) {
            let (r, c) = choose|r: int, c: int|
                0 <= r < n && 0 <= c < 8 && sprite_bit(mem[i + r], c) && #[trigger] pixel_index(
                    vx,
                    vy,
                    r,
                    c,
                ) == t;
            assert(8 * r + c < 8 * n);
            assert(hits_before(mem, i, vx, vy, 8 * n, t));
        }
    }
    assert(collides_before(gfx, mem, i, vx, vy, 8 * n) <==> draw_collides(gfx, mem, i, vx, vy, n))
        by {
        if collides_before(gfx, mem, i, vx, vy, 8 * n) {
            let (r, c) = choose|r: int, c: int|
                0 <= r && 0 <= c < 8 && 8 * r + c < 8 * n && sprite_bit(mem[i + r], c) && gfx[
                    #[trigger] pixel_index(vx, vy, r, c)
                ] != 0;
            assert(r < n);
            assert(draw_collides(gfx, mem, i, vx, vy, n));
        }
        if draw_collides(gfx, mem, i, vx, vy, n) {
            let (r, c) = choose|r: int, c: int|
                0 <= r < n && 0 <= c < 8 && sprite_bit(mem[i + r], c) && gfx[
                    #[trigger] pixel_index(vx, vy, r, c)
                ] != 0;
            assert(8 * r + c < 8 * n);
            assert(collides_before(gfx, mem, i, vx, vy, 8 * n));
        }
    }
}

/// The lowest pressed key at or above index `k`, if any.
pub open spec fn first_pressed_from(keys: Seq<u8>, k: int) -> Option<u8>
    recommends
        keys.len() == 16,
        0 <= k <= 16,
    decreases 16 - k,
{
    if k < 0 || k >= 16 {
        None
    } else if keys[k] != 0 {
        Some(k as u8)
    } else {
        first_pressed_from(keys, k + 1)
    }
}

/// The lowest pressed key, if any.
pub open spec fn first_pressed(keys: Seq<u8>) -> Option<u8> {
    first_pressed_from(keys, 0)
}

/// Both timers counted one step toward zero.
pub open spec fn tick_timers(s: Core) -> Core {
    Core {
        dt: if s.dt > 0 {
            (s.dt - 1) as u8
        } else {
            0u8
        },
        st: if s.st > 0 {
            (s.st - 1) as u8
        } else {
            0u8
        },
        ..s
    }
}

/// Category 0: clear the screen, or return from a subroutine. The return
/// address on the stack is the address of the call instruction, so returning
/// lands on the instruction after it.
pub open spec fn step_sys(s: Core, w: u16) -> Result<Core, Chip8Error> {
    if op_byte(w) == 0xE0 {
        Ok(Core { gfx: blank_gfx(), pc: pc_plus(s, 2), ..s })
    } else if op_byte(w) == 0xEE {
        if s.sp == 0 {
            Err(Chip8Error::StackUnderflow)
        } else {
            Ok(Core { pc: ((s.stack[s.sp as int] + 2) % 0x10000) as u16, sp: (s.sp - 1) as u16, ..s })
        }
    } else {
        Err(Chip8Error::InvalidOpcode(w, s.pc))
    }
}

/// Category 8: arithmetic and logic between two registers. Where register
/// 0xF is both the flag and the destination, the flag is written first and
/// the nominal destination write then overwrites it.
pub open spec fn step_alu(s: Core, w: u16) -> Result<Core, Chip8Error> {
    let x = op_x(w);
    let y = op_y(w);
    let nib = op_nibble(w);
    let vx = s.v[x];
    let vy = s.v[y];
    if nib == 0 {
        Ok(Core { v: s.v.update(x, vy), pc: pc_plus(s, 2), ..s })
    } else if nib == 1 {
        Ok(Core { v: s.v.update(x, vx | vy), pc: pc_plus(s, 2), ..s })
    } else if nib == 2 {
        Ok(Core { v: s.v.update(x, vx & vy), pc: pc_plus(s, 2), ..s })
    } else if nib == 3 {
        Ok(Core { v: s.v.update(x, vx ^ vy), pc: pc_plus(s, 2), ..s })
    } else if nib == 4 {
        let carry: u8 = if vx + vy > 255 {
            1
        } else {
            0
        };
        Ok(Core { v: s.v.update(15, carry).update(x, wrap8(vx + vy)), pc: pc_plus(s, 2), ..s })
    } else if nib == 5 {
        let borrow: u8 = if vx >= vy {
            1
        } else {
            0
        };
        Ok(
            Core {
                v: s.v.update(15, borrow).update(x, wrap8(vx + 256 - vy)),
                pc: pc_plus(s, 2),
                ..s
            },
        )
    } else if nib == 6 {
        let v1 = s.v.update(15, vx % 2);
        Ok(Core { v: v1.update(x, v1[x] / 2), pc: pc_plus(s, 2), ..s })
    } else if nib == 7 {
        let borrow: u8 = if vy >= vx {
            1
        } else {
            0
        };
        Ok(
            Core {
                v: s.v.update(15, borrow).update(x, wrap8(vy + 256 - vx)),
                pc: pc_plus(s, 2),
                ..s
            },
        )
    } else if nib == 0xE {
        let v1 = s.v.update(15, vx / 128);
        Ok(Core { v: v1.update(x, wrap8(2 * v1[x])), pc: pc_plus(s, 2), ..s })
    } else {
        Err(Chip8Error::InvalidOpcode(w, s.pc))
    }
}

/// The machine after drawing the `n`-row sprite whose anchor is in
/// registers `x` and `y`, with the program counter not yet advanced. The
/// collision flag is cleared before the anchor registers are read, then set
/// exactly when a set sprite bit lands on an already-lit cell.
pub open spec fn draw_result(s: Core, x: int, y: int, n: u8) -> Core {
    let v1 = s.v.update(15, 0u8);
    let vx = v1[x];
    let vy = v1[y];
    Core {
        gfx: draw_gfx(s.gfx, s.mem, s.i as int, vx, vy, n as int),
        v: v1.update(
            15,
            if draw_collides(s.gfx, s.mem, s.i as int, vx, vy, n as int) {
                1u8
            } else {
                0u8
            },
        ),
        ..s
    }
}

/// Category 0xD: XOR-draw a sprite, reading its rows from memory at the
/// index register. A row that would be read past the end of memory halts
/// the machine.
pub open spec fn step_draw(s: Core, w: u16) -> Result<Core, Chip8Error> {
    let n = op_nibble(w);
    if n > 0 && s.i + n > 4096 {
        Err(Chip8Error::MemoryOutOfBounds)
    } else {
        Ok(Core { pc: pc_plus(s, 2), ..draw_result(s, op_x(w), op_y(w), n) })
    }
}

/// Category 0xE: skip on the state of the key named by a register.
pub open spec fn step_key(s: Core, w: u16) -> Result<Core, Chip8Error> {
    let k = s.v[op_x(w)];
    if op_byte(w) == 0x9E || op_byte(w) == 0xA1 {
        if k > 15 {
            Err(Chip8Error::KeyOutOfRange)
        } else {
            let down = s.keys[k as int] != 0;
            let skip = if op_byte(w) == 0x9E {
                down
            } else {
                !down
            };
            Ok(
                Core {
                    pc: pc_plus(
                        s,
                        if skip {
                            4
                        } else {
                            2
                        },
                    ),
                    ..s
                },
            )
        }
    } else {
        Err(Chip8Error::InvalidOpcode(w, s.pc))
    }
}

/// Category 0xF: timers, keypad wait, index arithmetic, font lookup, BCD
/// and register block transfer.
pub open spec fn step_misc(s: Core, w: u16) -> Result<Core, Chip8Error> {
    let x = op_x(w);
    let vx = s.v[x];
    let b = op_byte(w);
    if b == 0x07 {
        Ok(Core { v: s.v.update(x, s.dt), pc: pc_plus(s, 2), ..s })
    } else if b == 0x0A {
        match first_pressed(s.keys) {
            Some(k) => Ok(Core { v: s.v.update(x, k), pc: pc_plus(s, 2), ..s }),
            None => Ok(s),
        }
    } else if b == 0x15 {
        Ok(Core { dt: vx, pc: pc_plus(s, 2), ..s })
    } else if b == 0x18 {
        Ok(Core { st: vx, pc: pc_plus(s, 2), ..s })
    } else if b == 0x1E {
        let sum = s.i + vx;
        let over: u8 = if sum > 0xFFF {
            1
        } else {
            0
        };
        Ok(Core { v: s.v.update(15, over), i: (sum % 0x10000) as u16, pc: pc_plus(s, 2), ..s })
    } else if b == 0x29 {
        Ok(Core { i: (vx * 5) as u16, pc: pc_plus(s, 2), ..s })
    } else if b == 0x33 {
        if s.i + 2 > 4095 {
            Err(Chip8Error::MemoryOutOfBounds)
        } else {
            Ok(
                Core {
                    mem: s.mem.update(s.i as int, (vx / 100) as u8).update(
                        s.i + 1,
                        ((vx / 10) % 10) as u8,
                    ).update(s.i + 2, (vx % 10) as u8),
                    pc: pc_plus(s, 2),
                    ..s
                },
            )
        }
    } else if b == 0x55 {
        if s.i + x > 4095 {
            Err(Chip8Error::MemoryOutOfBounds)
        } else {
            Ok(
                Core {
                    mem: Seq::new(
                        4096,
                        |j: int|
                            if s.i <= j <= s.i + x {
                                s.v[j - s.i]
                            } else {
                                s.mem[j]
                            },
                    ),
                    pc: pc_plus(s, 2),
                    ..s
                },
            )
        }
    } else if b == 0x65 {
        if s.i + x > 4095 {
            Err(Chip8Error::MemoryOutOfBounds)
        } else {
            Ok(
                Core {
                    v: Seq::new(
                        16,
                        |j: int|
                            if 0 <= j <= x {
                                s.mem[s.i + j]
                            } else {
                                s.v[j]
                            },
                    ),
                    pc: pc_plus(s, 2),
                    ..s
                },
            )
        }
    } else {
        Err(Chip8Error::InvalidOpcode(w, s.pc))
    }
}

/// One decoded instruction executed from state `s`. `rnd` is the byte the
/// host's random source produced; only the random-mask instruction reads it.
pub open spec fn spec_execute(s: Core, w: u16, rnd: u8) -> Result<Core, Chip8Error> {
    let cat = op_category(w);
    let x = op_x(w);
    let y = op_y(w);
    let nn = op_byte(w);
    if cat == 0 {
        step_sys(s, w)
    } else if cat == 1 {
        Ok(Core { pc: op_address(w), ..s })
    } else if cat == 2 {
        if s.sp >= 15 {
            Err(Chip8Error::StackOverflow)
        } else {
            Ok(
                Core {
                    stack: s.stack.update(s.sp + 1, s.pc),
                    sp: (s.sp + 1) as u16,
                    pc: op_address(w),
                    ..s
                },
            )
        }
    } else if cat == 3 {
        Ok(
            Core {
                pc: pc_plus(
                    s,
                    if s.v[x] == nn {
                        4
                    } else {
                        2
                    },
                ),
                ..s
            },
        )
    } else if cat == 4 {
        Ok(
            Core {
                pc: pc_plus(
                    s,
                    if s.v[x] != nn {
                        4
                    } else {
                        2
                    },
                ),
                ..s
            },
        )
    } else if cat == 5 {
        Ok(
            Core {
                pc: pc_plus(
                    s,
                    if s.v[x] == s.v[y] {
                        4
                    } else {
                        2
                    },
                ),
                ..s
            },
        )
    } else if cat == 6 {
        Ok(Core { v: s.v.update(x, nn), pc: pc_plus(s, 2), ..s })
    } else if cat == 7 {
        Ok(Core { v: s.v.update(x, wrap8(s.v[x] + nn)), pc: pc_plus(s, 2), ..s })
    } else if cat == 8 {
        step_alu(s, w)
    } else if cat == 9 {
        Ok(
            Core {
                pc: pc_plus(
                    s,
                    if s.v[x] != s.v[y] {
                        4
                    } else {
                        2
                    },
                ),
                ..s
            },
        )
    } else if cat == 0xA {
        Ok(Core { i: op_address(w), pc: pc_plus(s, 2), ..s })
    } else if cat == 0xB {
        Ok(Core { pc: (op_address(w) + s.v[0]) as u16, ..s })
    } else if cat == 0xC {
        Ok(Core { v: s.v.update(x, rnd & nn), pc: pc_plus(s, 2), ..s })
    } else if cat == 0xD {
        step_draw(s, w)
    } else if cat == 0xE {
        step_key(s, w)
    } else {
        step_misc(s, w)
    }
}

/// One whole machine cycle: fetch the word at the program counter, execute
/// it, then count both timers down one step. A fetch that would read past
/// the end of memory halts the machine.
pub open spec fn spec_cycle(s: Core, rnd: u8) -> Result<Core, Chip8Error> {
    if s.pc + 1 >= 4096 {
        Err(Chip8Error::MemoryOutOfBounds)
    } else {
        match spec_execute(s, fetch_word(s), rnd) {
            Ok(s2) => Ok(tick_timers(s2)),
            Err(e) => Err(e),
        }
    }
}

/// How an executable outcome follows the model: on success the new state is
/// exactly the model's next state; on a fatal error the reported error is
/// the model's and the state is untouched.
pub open spec fn outcome_matches(
    pre: Core,
    post: Core,
    r: Result<(), Chip8Error>,
    step: Result<Core, Chip8Error>,
) -> bool {
    match step {
        Ok(s2) => r is Ok && post == s2,
        Err(e) => r == Result::<(), Chip8Error>::Err(e) && post == pre,
    }
}

} // verus!
