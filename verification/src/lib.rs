//! A verified CHIP-8 interpreter core.
//!
//! The machine model (registers, call stack, framebuffer, memory, keypad and
//! timers) and the complete fetch-decode-execute cycle live here, each
//! operation specified against a mathematical model of the machine state.
//! Reading a ROM from disk, presenting the framebuffer and translating host
//! key events are left to the surrounding program.

pub mod buffer;
pub mod chip8;
pub mod error;
pub mod gfx;
pub mod keyboard;
pub mod laws;
pub mod memory;
pub mod opcode;
pub mod register;
pub mod semantics;
pub mod stack;
