//! Tests of machine-level behavior: reset state, ROM placement, the fatal
//! error conditions, timers, the random mask, and sprite wraparound and
//! XOR self-inversion.

use chip8::chip8::Chip8;
use chip8::error::Chip8Error;
use chip8::memory::Memory;

#[test]
fn reset_loads_font_and_program_counter() {
    let mut chip = Chip8::new();
    chip.initialize();

    assert_eq!(chip.program_counter(), 0x0200);
    assert_eq!(chip.read_mem(0), 0xF0);
    assert_eq!(chip.read_mem(4), 0xF0);
    assert_eq!(chip.read_mem(5), 0x20);
    assert_eq!(chip.read_mem(79), 0x80);
    assert_eq!(chip.read_mem(80), 0x00);
    assert_eq!(chip.read_mem(0x200), 0x00);
}

#[test]
fn reset_keeps_timers_and_stack() {
    let mut chip = Chip8::new();
    chip.set_delay_timer(5);
    chip.set_sound_timer(7);
    chip.initialize();

    assert_eq!(chip.delay_timer(), 5);
    assert_eq!(chip.sound_timer(), 7);
    assert_eq!(chip.stack().get_pointer(), 0);
}

#[test]
fn rom_bytes_land_at_program_start() {
    let mut chip = Chip8::new();
    chip.initialize();
    chip.load_rom(vec![0xAB, 0xCD]);

    assert_eq!(chip.read_mem(0x200), 0xAB);
    assert_eq!(chip.read_mem(0x201), 0xCD);
    assert_eq!(chip.read_mem(0x202), 0x00);
}

#[test]
fn unmapped_sys_opcode_is_fatal() {
    let mut chip = Chip8::new();
    chip.initialize();
    chip.load_rom(vec![0x00, 0x00]);

    assert_eq!(chip.cycle(), Err(Chip8Error::InvalidOpcode(0x0000, 0x200)));
    assert_eq!(chip.program_counter(), 0x200);
}

#[test]
fn unmapped_alu_opcode_is_fatal() {
    let mut chip = Chip8::new();
    chip.initialize();
    chip.load_rom(vec![0x80, 0x18]);

    assert_eq!(chip.cycle(), Err(Chip8Error::InvalidOpcode(0x8018, 0x200)));
}

#[test]
fn unmapped_key_opcode_is_fatal() {
    let mut chip = Chip8::new();
    chip.initialize();
    chip.load_rom(vec![0xE0, 0xFF]);

    assert_eq!(chip.cycle(), Err(Chip8Error::InvalidOpcode(0xE0FF, 0x200)));
}

#[test]
fn unmapped_misc_opcode_is_fatal() {
    let mut chip = Chip8::new();
    chip.initialize();
    chip.load_rom(vec![0xF0, 0xFF]);

    assert_eq!(chip.cycle(), Err(Chip8Error::InvalidOpcode(0xF0FF, 0x200)));
}

#[test]
fn call_with_full_stack_overflows() {
    let mut chip = Chip8::new();
    chip.initialize();
    chip.load_rom(vec![0x22, 0x00]);

    for _ in 0..15 {
        chip.cycle().unwrap();
    }
    assert_eq!(chip.stack().get_pointer(), 15);
    assert_eq!(chip.cycle(), Err(Chip8Error::StackOverflow));
}

#[test]
fn return_with_empty_stack_underflows() {
    let mut chip = Chip8::new();
    chip.initialize();
    chip.load_rom(vec![0x00, 0xEE]);

    assert_eq!(chip.cycle(), Err(Chip8Error::StackUnderflow));
}

#[test]
fn fetch_at_end_of_memory_is_fatal() {
    let mut chip = Chip8::new();
    chip.initialize();
    chip.load_rom(vec![0x1F, 0xFF]);

    chip.cycle().unwrap();
    assert_eq!(chip.program_counter(), 0x0FFF);
    assert_eq!(chip.cycle(), Err(Chip8Error::MemoryOutOfBounds));
}

#[test]
fn sprite_rows_past_end_of_memory_are_fatal() {
    let mut chip = Chip8::new();
    chip.initialize();
    chip.load_rom(vec![0xD0, 0x0F]);
    chip.set_reg_i(4090);

    assert_eq!(chip.cycle(), Err(Chip8Error::MemoryOutOfBounds));
}

#[test]
fn bcd_past_end_of_memory_is_fatal() {
    let mut chip = Chip8::new();
    chip.initialize();
    chip.load_rom(vec![0xF0, 0x33]);
    chip.set_reg_i(4094);

    assert_eq!(chip.cycle(), Err(Chip8Error::MemoryOutOfBounds));
}

#[test]
fn register_store_past_end_of_memory_is_fatal() {
    let mut chip = Chip8::new();
    chip.initialize();
    chip.load_rom(vec![0xF6, 0x55]);
    chip.set_reg_i(4090);

    assert_eq!(chip.cycle(), Err(Chip8Error::MemoryOutOfBounds));
}

#[test]
fn key_test_above_fifteen_is_fatal() {
    let mut chip = Chip8::new();
    chip.initialize();
    chip.load_rom(vec![0xE0, 0x9E]);
    chip.set_v(0, 0x20);

    assert_eq!(chip.cycle(), Err(Chip8Error::KeyOutOfRange));
}

#[test]
fn random_masked_with_zero_is_zero() {
    let mut chip = Chip8::new();
    chip.initialize();
    chip.load_rom(vec![0xC0, 0x00]);
    chip.set_v(0, 0x77);
    chip.cycle().unwrap();

    assert_eq!(chip.v(0), 0x00);
    assert_eq!(chip.program_counter(), 0x0202);
}

#[test]
fn random_stays_within_mask() {
    let mut chip = Chip8::new();
    chip.initialize();
    chip.load_rom(vec![0xC0, 0x0F]);
    chip.cycle().unwrap();

    assert_eq!(chip.v(0) & 0xF0, 0x00);
}

#[test]
fn add_i_past_address_space_sets_flag() {
    let mut chip = Chip8::new();
    chip.initialize();
    chip.load_rom(vec![0xF0, 0x1E]);
    chip.set_reg_i(0xFFF);
    chip.set_v(0, 2);
    chip.cycle().unwrap();

    assert_eq!(chip.reg_i(), 0x1001);
    assert_eq!(chip.v(0xF), 1);
}

#[test]
fn timers_stop_at_zero() {
    let mut chip = Chip8::new();
    chip.initialize();
    chip.load_rom(vec![0x60, 0x00, 0x60, 0x00]);
    chip.set_delay_timer(1);

    chip.cycle().unwrap();
    assert_eq!(chip.delay_timer(), 0);
    chip.cycle().unwrap();
    assert_eq!(chip.delay_timer(), 0);
    assert_eq!(chip.sound_timer(), 0);
}

#[test]
fn sprite_draw_wraps_on_linear_index() {
    let mut chip = Chip8::new();
    chip.initialize();
    chip.load_rom(vec![0xD0, 0x11]);
    chip.set_v(0, 62);
    chip.set_v(1, 0);
    chip.cycle().unwrap();

    assert_eq!(chip.gfx().pixel(62), 0xFF);
    assert_eq!(chip.gfx().pixel(63), 0xFF);
    assert_eq!(chip.gfx().pixel(64), 0xFF);
    assert_eq!(chip.gfx().pixel(65), 0xFF);
    assert_eq!(chip.gfx().pixel(66), 0x00);
}

#[test]
fn drawing_twice_restores_the_screen() {
    let mut chip = Chip8::new();
    chip.initialize();
    chip.load_rom(vec![0xD0, 0x05, 0xD0, 0x05]);

    chip.cycle().unwrap();
    assert_eq!(chip.gfx().pixel(0), 0xFF);
    assert_eq!(chip.v(0xF), 0);

    chip.cycle().unwrap();
    assert_eq!(chip.v(0xF), 1);
    assert!(chip.gfx().get().iter().all(|&x| x == 0));
}

#[test]
fn memory_word_is_big_endian() {
    let mut memory = Memory::new();
    memory.store8(0x40, 0x12);
    memory.store8(0x41, 0x34);

    assert_eq!(memory.load16(0x40), 0x1234);
    assert_eq!(memory.load8(0x40), 0x12);
}

#[test]
fn memory_store_copies_a_slice() {
    let mut memory = Memory::new();
    let bytes = vec![1, 2, 3];
    memory.store(0x10, bytes.as_slice());

    assert_eq!(memory.load8(0x0F), 0);
    assert_eq!(memory.load8(0x10), 1);
    assert_eq!(memory.load8(0x12), 3);
    assert_eq!(memory.load8(0x13), 0);
}

#[test]
fn clear_display_darkens_every_cell() {
    let mut chip = Chip8::new();
    chip.initialize();
    chip.load_rom(vec![0xD0, 0x05, 0x00, 0xE0]);

    chip.cycle().unwrap();
    assert_eq!(chip.gfx().pixel(0), 0xFF);

    chip.cycle().unwrap();
    assert!(chip.gfx().get().iter().all(|&x| x == 0));
}
