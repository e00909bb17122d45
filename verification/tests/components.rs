//! Tests of the individual machine components: framebuffer, keypad,
//! decoder, register file and call stack.

use chip8::gfx::GfxMemory;
use chip8::keyboard::Keyboard;
use chip8::opcode::Opcode;
use chip8::register::Register;
use chip8::stack::Stack;

#[test]
fn gfx_clear() {
    let mut gfx_memory = GfxMemory::new();
    gfx_memory.clear();
    assert!(gfx_memory.get().iter().all(|&x| x == 0));
}

#[test]
fn gfx_get_set_pixel() {
    let mut gfx_memory = GfxMemory::new();
    gfx_memory.set(0, 0xFF);
    assert_eq!(gfx_memory.pixel(0), 0xFF);
}

#[test]
fn key_set_get() {
    let mut keyboard = Keyboard::new();
    keyboard.set(0, 0x1);
    assert_eq!(keyboard.get(0), 0x1);
}

#[test]
fn get_category() {
    assert_eq!(Opcode::new(0x1234).category, 1);
}

#[test]
fn get_x() {
    assert_eq!(Opcode::new(0x1234).x, 2);
}

#[test]
fn get_y() {
    assert_eq!(Opcode::new(0x1234).y, 3);
}

#[test]
fn get_address() {
    assert_eq!(Opcode::new(0x1234).address, 0x234);
}

#[test]
fn get_8bit() {
    assert_eq!(Opcode::new(0x1234).get_8bit(), 0x34);
}

#[test]
fn get_4bit() {
    assert_eq!(Opcode::new(0x1234).get_4bit(), 4);
}

#[test]
fn reg_clear() {
    let mut register = Register::new();
    register.clear();
    assert!((0..16).all(|k| register.get(k) == 0));
}

#[test]
fn reg_get_set() {
    let mut register = Register::new();
    register.set(0, 0xFF);
    assert_eq!(register.get(0), 0xFF);
}

#[test]
fn reg_get_set_i() {
    let mut register = Register::new();
    register.reg_i = 1;
    assert_eq!(register.reg_i, 1);
}

#[test]
fn stack_push() {
    let mut stack = Stack::new();
    assert_eq!(stack.get_pointer(), 0);
    stack.push(0x1234);
    assert_eq!(stack.get_pointer(), 1);
    assert_eq!(stack.current(), 0x1234);
}

#[test]
fn stack_pop() {
    let mut stack = Stack::new();
    assert_eq!(stack.get_pointer(), 0);
    stack.push(0x1234);
    assert_eq!(stack.get_pointer(), 1);
    assert_eq!(stack.pop(), 0x1234);
    assert_eq!(stack.get_pointer(), 0);
}
