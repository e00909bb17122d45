//! Machine-level laws, proved once over the step model for every state and
//! instruction they speak of.

use vstd::prelude::*;

use crate::opcode::op_byte;
use crate::opcode::op_category;
use crate::opcode::op_x;
use crate::opcode::op_y;
use crate::semantics::blank_gfx;
use crate::semantics::draw_collides;
use crate::semantics::draw_gfx;
use crate::semantics::flip;
use crate::semantics::pixel_index;
use crate::semantics::spec_execute;
use crate::semantics::sprite_bit;
use crate::semantics::sprite_hits;
use crate::semantics::wf;
use crate::semantics::Core;

verus! {

/// The instruction words that neither jump, call, return, skip nor wait:
/// clear-screen, the register loads and arithmetic, the index loads, the
/// random mask, the sprite draw, and the timer, BCD and block transfers.
pub open spec fn non_branching(w: u16) -> bool {
    ||| (op_category(w) == 0 && op_byte(w) == 0xE0)
    ||| op_category(w) == 6
    ||| op_category(w) == 7
    ||| op_category(w) == 8
    ||| op_category(w) == 0xA
    ||| op_category(w) == 0xC
    ||| op_category(w) == 0xD
    ||| (op_category(w) == 0xF && (op_byte(w) == 0x07 || op_byte(w) == 0x15 || op_byte(w) == 0x18
        || op_byte(w) == 0x1E || op_byte(w) == 0x29 || op_byte(w) == 0x33 || op_byte(w) == 0x55
        || op_byte(w) == 0x65))
}

/// Law: an instruction that does not branch advances the program counter by
/// exactly two bytes whenever it executes successfully.
pub proof fn lemma_non_branching_advances_pc(s: Core, w: u16, rnd: u8)
    requires
        wf(s),
        s.pc < 0xFFF,
        non_branching(w),
    ensures
        spec_execute(s, w, rnd) matches Ok(s2) ==> s2.pc == s.pc + 2,
{
}

/// The conditional-skip instruction words: skip on immediate comparison, on
/// register comparison, and on key state.
pub open spec fn conditional_skip(w: u16) -> bool {
    ||| op_category(w) == 3
    ||| op_category(w) == 4
    ||| op_category(w) == 5
    ||| op_category(w) == 9
    ||| (op_category(w) == 0xE && (op_byte(w) == 0x9E || op_byte(w) == 0xA1))
}

/// The condition a conditional-skip instruction tests.
pub open spec fn skip_condition(s: Core, w: u16) -> bool {
    if op_category(w) == 3 {
        s.v[op_x(w)] == op_byte(w)
    } else if op_category(w) == 4 {
        s.v[op_x(w)] != op_byte(w)
    } else if op_category(w) == 5 {
        s.v[op_x(w)] == s.v[op_y(w)]
    } else if op_category(w) == 9 {
        s.v[op_x(w)] != s.v[op_y(w)]
    } else if op_byte(w) == 0x9E {
        s.keys[s.v[op_x(w)] as int] != 0
    } else {
        s.keys[s.v[op_x(w)] as int] == 0
    }
}

/// Law: a conditional skip that executes successfully advances the program
/// counter by four bytes when its condition holds and by two when it does
/// not.
pub proof fn lemma_conditional_skip_pc(s: Core, w: u16, rnd: u8)
    requires
        wf(s),
        s.pc < 0xFFF,
        conditional_skip(w),
    ensures
        spec_execute(s, w, rnd) matches Ok(s2) ==> s2.pc == s.pc + (if skip_condition(s, w) {
            4int
        } else {
            2int
        }),
{
}

/// Law: the clear-screen instruction turns every framebuffer cell dark,
/// whatever the screen held before, and always succeeds.
pub proof fn lemma_clear_screen_blanks(s: Core, w: u16, rnd: u8)
    requires
        wf(s),
        op_category(w) == 0,
        op_byte(w) == 0xE0,
    ensures
        spec_execute(s, w, rnd) is Ok,
        spec_execute(s, w, rnd) matches Ok(s2) ==> s2.gfx == blank_gfx() && forall|t: int|
            0 <= t < 2048 ==> s2.gfx[t] == 0,
{
}

/// Law: a subroutine call followed at once by a return restores the program
/// counter to just past the call and the stack pointer to its value before
/// the call; every register, memory cell, framebuffer cell, key and timer
/// is as it was.
pub proof fn lemma_call_return_round_trip(s: Core, w: u16, rnd: u8)
    requires
        wf(s),
        s.pc < 0xFFF,
        s.sp < 15,
        op_category(w) == 2,
    ensures
        spec_execute(s, w, rnd) is Ok,
        ({
            let s1 = spec_execute(s, w, rnd)->Ok_0;
            &&& spec_execute(s1, 0x00EE, rnd) is Ok
            &&& ({
                let s2 = spec_execute(s1, 0x00EE, rnd)->Ok_0;
                &&& s2.pc == s.pc + 2
                &&& s2.sp == s.sp
                &&& s2.v == s.v
                &&& s2.i == s.i
                &&& s2.mem == s.mem
                &&& s2.gfx == s.gfx
                &&& s2.keys == s.keys
                &&& s2.dt == s.dt
                &&& s2.st == s.st
            })
        }),
{
    assert((0x00EEu16 & 0xF000) >> 12 == 0) by (bit_vector);
    assert((0x00EEu16 & 0x00FF) as u8 == 0xEE) by (bit_vector);
    let s1 = spec_execute(s, w, rnd)->Ok_0;
    assert(s1.stack[s1.sp as int] == s.pc);
}

/// Law: drawing a sprite twice at the same anchor restores a binary
/// framebuffer (one whose cells are all 0x00 or 0xFF) to exactly its
/// prior contents, and the second draw reports a collision precisely when
/// the first draw lit some cell.
pub proof fn lemma_draw_twice_restores(
    gfx: Seq<u8>,
    mem: Seq<u8>,
    i: int,
    vx: u8,
    vy: u8,
    n: int,
)
    requires
        gfx.len() == 2048,
        forall|t: int| 0 <= t < 2048 ==> gfx[t] == 0 || gfx[t] == 0xFF,
    ensures
        draw_gfx(draw_gfx(gfx, mem, i, vx, vy, n), mem, i, vx, vy, n) == gfx,
        draw_collides(draw_gfx(gfx, mem, i, vx, vy, n), mem, i, vx, vy, n) <==> (exists|
            r: int,
            c: int,
        |
            0 <= r < n && 0 <= c < 8 && sprite_bit(mem[i + r], c) && gfx[#[trigger] pixel_index(
                vx,
                vy,
                r,
                c,
            )] == 0),
{
    let g1 = draw_gfx(gfx, mem, i, vx, vy, n);
    assert forall|t: int| 0 <= t < 2048 implies draw_gfx(g1, mem, i, vx, vy, n)[t] == gfx[t] by {
        if sprite_hits(mem, i, vx, vy, n, t) {
            assert(g1[t] == flip(gfx[t]));
            assert(flip(flip(gfx[t])) == gfx[t]);
        }
    }
    assert(draw_gfx(g1, mem, i, vx, vy, n) =~= gfx);
    if draw_collides(g1, mem, i, vx, vy, n) {
        let (r, c) = choose|r: int, c: int|
            0 <= r < n && 0 <= c < 8 && sprite_bit(mem[i + r], c) && g1[#[trigger] pixel_index(
                vx,
                vy,
                r,
                c,
            )] != 0;
        let p = pixel_index(vx, vy, r, c);
        assert(sprite_hits(mem, i, vx, vy, n, p));
        assert(g1[p] == flip(gfx[p]));
        assert(gfx[p] == 0);
    }
    if exists|r: int, c: int|
        0 <= r < n && 0 <= c < 8 && sprite_bit(mem[i + r], c) && gfx[#[trigger] pixel_index(
            vx,
            vy,
            r,
            c,
        )] == 0 {
        let (r, c) = choose|r: int, c: int|
            0 <= r < n && 0 <= c < 8 && sprite_bit(mem[i + r], c) && gfx[#[trigger] pixel_index(
                vx,
                vy,
                r,
                c,
            )] == 0;
        let p = pixel_index(vx, vy, r, c);
        assert(sprite_hits(mem, i, vx, vy, n, p));
        assert(g1[p] == flip(gfx[p]));
        assert(g1[p] != 0);
        assert(draw_collides(g1, mem, i, vx, vy, n));
    }
}

} // verus!
