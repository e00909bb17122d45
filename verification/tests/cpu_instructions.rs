//! One test per instruction of the interpreter, each driving a whole
//! fetch-decode-execute cycle on a small ROM.

use chip8::chip8::Chip8;

#[test]
fn instruction_clear_display() {
    let rom = vec![0x00, 0xE0];

    let mut chip = Chip8::new();
    chip.initialize();
    chip.load_rom(rom);
    chip.cycle().unwrap();

    assert_eq!(chip.program_counter(), 0x0202);
}

#[test]
fn instruction_call() {
    let rom = vec![0x22, 0xFC];

    let mut chip = Chip8::new();
    chip.initialize();
    chip.load_rom(rom);
    chip.cycle().unwrap();

    assert_eq!(chip.program_counter(), 0x02FC);
    assert_eq!(chip.stack().get_pointer(), 0x0001);
    assert_eq!(chip.stack().current(), 0x200);
}

#[test]
fn instruction_return() {
    let rom = vec![0x22, 0x04, 0x00, 0x00, 0x00, 0xEE];

    let mut chip = Chip8::new();
    chip.initialize();
    chip.load_rom(rom);
    chip.cycle().unwrap();
    chip.cycle().unwrap();

    assert_eq!(chip.program_counter(), 0x0202);
    assert_eq!(chip.stack().get_pointer(), 0x0000);
}

#[test]
fn instruction_jump() {
    let rom = vec![0x12, 0xFC];

    let mut chip = Chip8::new();
    chip.initialize();
    chip.load_rom(rom);
    chip.cycle().unwrap();

    assert_eq!(chip.program_counter(), 0x02FC);
}

#[test]
fn instruction_jump_equal() {
    let rom = vec![0x30, 0x15];

    let mut chip = Chip8::new();
    chip.initialize();
    chip.load_rom(rom);
    chip.set_v(0, 0x15);
    chip.cycle().unwrap();

    assert_eq!(chip.program_counter(), 0x0204);
}

#[test]
fn instruction_not_jump_equal() {
    let rom = vec![0x30, 0x15];

    let mut chip = Chip8::new();
    chip.initialize();
    chip.load_rom(rom);
    chip.set_v(0, 0x14);
    chip.cycle().unwrap();

    assert_eq!(chip.program_counter(), 0x0202);
}

#[test]
fn instruction_jump_not_equal() {
    let rom = vec![0x40, 0x15];

    let mut chip = Chip8::new();
    chip.initialize();
    chip.load_rom(rom);
    chip.set_v(0, 0x14);
    chip.cycle().unwrap();

    assert_eq!(chip.program_counter(), 0x0204);
}

#[test]
fn instruction_not_jump_not_equal() {
    let rom = vec![0x40, 0x15];

    let mut chip = Chip8::new();
    chip.initialize();
    chip.load_rom(rom);
    chip.set_v(0, 0x15);
    chip.cycle().unwrap();

    assert_eq!(chip.program_counter(), 0x0202);
}

#[test]
fn instruction_jump_equal_regs() {
    let rom = vec![0x50, 0x10];

    let mut chip = Chip8::new();
    chip.initialize();
    chip.load_rom(rom);
    chip.set_v(0, 0x14);
    chip.set_v(1, 0x14);
    chip.cycle().unwrap();

    assert_eq!(chip.program_counter(), 0x0204);
}

#[test]
fn instruction_not_jump_equal_regs() {
    let rom = vec![0x50, 0x10];

    let mut chip = Chip8::new();
    chip.initialize();
    chip.load_rom(rom);
    chip.set_v(0, 0x14);
    chip.set_v(1, 0x15);
    chip.cycle().unwrap();

    assert_eq!(chip.program_counter(), 0x0202);
}

#[test]
fn instruction_set_reg() {
    let rom = vec![0x60, 0x15];

    let mut chip = Chip8::new();
    chip.initialize();
    chip.load_rom(rom);
    chip.cycle().unwrap();

    assert_eq!(chip.program_counter(), 0x0202);
    assert_eq!(chip.v(0), 0x15);
}

#[test]
fn instruction_add_reg() {
    let rom = vec![0x70, 0x10];

    let mut chip = Chip8::new();
    chip.initialize();
    chip.load_rom(rom);
    chip.set_v(0, 0x15);
    chip.cycle().unwrap();

    assert_eq!(chip.program_counter(), 0x0202);
    assert_eq!(chip.v(0), 0x25);
}

#[test]
fn instruction_assign() {
    let rom = vec![0x80, 0x10];

    let mut chip = Chip8::new();
    chip.initialize();
    chip.load_rom(rom);
    chip.set_v(1, 0x15);
    chip.cycle().unwrap();

    assert_eq!(chip.program_counter(), 0x0202);
    assert_eq!(chip.v(0), 0x15);
}

#[test]
fn instruction_or() {
    let rom = vec![0x80, 0x11];

    let mut chip = Chip8::new();
    chip.initialize();
    chip.load_rom(rom);
    chip.set_v(0, 0x0F);
    chip.set_v(1, 0xF0);
    chip.cycle().unwrap();

    assert_eq!(chip.program_counter(), 0x0202);
    assert_eq!(chip.v(0), 0xFF);
}

#[test]
fn instruction_and() {
    let rom = vec![0x80, 0x12];

    let mut chip = Chip8::new();
    chip.initialize();
    chip.load_rom(rom);
    chip.set_v(0, 0x0F);
    chip.set_v(1, 0xF0);
    chip.cycle().unwrap();

    assert_eq!(chip.program_counter(), 0x0202);
    assert_eq!(chip.v(0), 0x00);
}

#[test]
fn instruction_xor() {
    let rom = vec![0x80, 0x13];

    let mut chip = Chip8::new();
    chip.initialize();
    chip.load_rom(rom);
    chip.set_v(0, 0x15);
    chip.set_v(1, 0x35);
    chip.cycle().unwrap();

    assert_eq!(chip.program_counter(), 0x0202);
    assert_eq!(chip.v(0), 0x20);
}

#[test]
fn instruction_add_carry() {
    let rom = vec![0x80, 0x14];

    let mut chip = Chip8::new();
    chip.initialize();
    chip.load_rom(rom);
    chip.set_v(0, 0xA5);
    chip.set_v(1, 0xA5);
    chip.cycle().unwrap();

    assert_eq!(chip.program_counter(), 0x0202);
    assert_eq!(chip.v(0), 0x4A);
    assert_eq!(chip.v(0xF), 0x01);
}

#[test]
fn instruction_add_no_carry() {
    let rom = vec![0x80, 0x14];

    let mut chip = Chip8::new();
    chip.initialize();
    chip.load_rom(rom);
    chip.set_v(0, 0x15);
    chip.set_v(1, 0x10);
    chip.cycle().unwrap();

    assert_eq!(chip.program_counter(), 0x0202);
    assert_eq!(chip.v(0), 0x25);
    assert_eq!(chip.v(0xF), 0x0);
}

#[test]
fn instruction_sub_no_carry() {
    let rom = vec![0x80, 0x15];

    let mut chip = Chip8::new();
    chip.initialize();
    chip.load_rom(rom);
    chip.set_v(0, 0x10);
    chip.set_v(1, 0x15);
    chip.cycle().unwrap();

    assert_eq!(chip.program_counter(), 0x0202);
    assert_eq!(chip.v(0), 0xFB);
    assert_eq!(chip.v(0xF), 0x00);
}

#[test]
fn instruction_sub_carry() {
    let rom = vec![0x80, 0x15];

    let mut chip = Chip8::new();
    chip.initialize();
    chip.load_rom(rom);
    chip.set_v(0, 0x15);
    chip.set_v(1, 0x10);
    chip.cycle().unwrap();

    assert_eq!(chip.program_counter(), 0x0202);
    assert_eq!(chip.v(0), 0x05);
    assert_eq!(chip.v(0xF), 0x1);
}

#[test]
fn instruction_rshift_carry() {
    let rom = vec![0x80, 0x06];

    let mut chip = Chip8::new();
    chip.initialize();
    chip.load_rom(rom);
    chip.set_v(0, 0x01);
    chip.cycle().unwrap();

    assert_eq!(chip.program_counter(), 0x0202);
    assert_eq!(chip.v(0), 0x00);
    assert_eq!(chip.v(0xF), 0x01);
}

#[test]
fn instruction_rshift_no_carry() {
    let rom = vec![0x80, 0x06];

    let mut chip = Chip8::new();
    chip.initialize();
    chip.load_rom(rom);
    chip.set_v(0, 0x02);
    chip.cycle().unwrap();

    assert_eq!(chip.program_counter(), 0x0202);
    assert_eq!(chip.v(0), 0x01);
    assert_eq!(chip.v(0xF), 0x0);
}

#[test]
fn instruction_sub_regs_no_carry() {
    let rom = vec![0x80, 0x17];

    let mut chip = Chip8::new();
    chip.initialize();
    chip.load_rom(rom);
    chip.set_v(0, 0x15);
    chip.set_v(1, 0x10);
    chip.cycle().unwrap();

    assert_eq!(chip.program_counter(), 0x0202);
    assert_eq!(chip.v(0), 0xFB);
    assert_eq!(chip.v(0xF), 0x00);
}

#[test]
fn instruction_sub_regs_carry() {
    let rom = vec![0x80, 0x17];

    let mut chip = Chip8::new();
    chip.initialize();
    chip.load_rom(rom);
    chip.set_v(0, 0x10);
    chip.set_v(1, 0x15);
    chip.cycle().unwrap();

    assert_eq!(chip.program_counter(), 0x0202);
    assert_eq!(chip.v(0), 0x05);
    assert_eq!(chip.v(0xF), 0x01);
}

#[test]
fn instruction_lshift_carry() {
    let rom = vec![0x80, 0x0E];

    let mut chip = Chip8::new();
    chip.initialize();
    chip.load_rom(rom);
    chip.set_v(0, 0x80);
    chip.cycle().unwrap();

    assert_eq!(chip.program_counter(), 0x0202);
    assert_eq!(chip.v(0), 0x00);
    assert_eq!(chip.v(0xF), 0x01);
}

#[test]
fn instruction_lshift_no_carry() {
    let rom = vec![0x80, 0x0E];

    let mut chip = Chip8::new();
    chip.initialize();
    chip.load_rom(rom);
    chip.set_v(0, 0x01);
    chip.cycle().unwrap();

    assert_eq!(chip.program_counter(), 0x0202);
    assert_eq!(chip.v(0), 0x02);
    assert_eq!(chip.v(0xF), 0x0);
}

#[test]
fn instruction_jump_not_equal_regs() {
    let rom = vec![0x90, 0x10];

    let mut chip = Chip8::new();
    chip.initialize();
    chip.load_rom(rom);
    chip.set_v(0, 0x14);
    chip.set_v(1, 0x15);
    chip.cycle().unwrap();

    assert_eq!(chip.program_counter(), 0x0204);
}

#[test]
fn instruction_not_jump_not_equal_regs() {
    let rom = vec![0x90, 0x10];

    let mut chip = Chip8::new();
    chip.initialize();
    chip.load_rom(rom);
    chip.set_v(0, 0x14);
    chip.set_v(1, 0x14);
    chip.cycle().unwrap();

    assert_eq!(chip.program_counter(), 0x0202);
}

#[test]
fn instruction_set_i() {
    let rom = vec![0xA1, 0x23];

    let mut chip = Chip8::new();
    chip.initialize();
    chip.load_rom(rom);
    chip.cycle().unwrap();

    assert_eq!(chip.program_counter(), 0x0202);
    assert_eq!(chip.reg_i(), 0x0123);
}

#[test]
fn instruction_jump_reg() {
    let rom = vec![0xB1, 0x23];

    let mut chip = Chip8::new();
    chip.initialize();
    chip.load_rom(rom);
    chip.set_v(0, 0x10);
    chip.cycle().unwrap();

    assert_eq!(chip.program_counter(), 0x0133);
}

#[test]
fn instruction_key_equal() {
    let rom = vec![0xE0, 0x9E];

    let mut chip = Chip8::new();
    chip.initialize();
    chip.load_rom(rom);
    chip.set_v(0, 0x3);
    chip.set_key(3, 0x1);
    chip.cycle().unwrap();

    assert_eq!(chip.program_counter(), 0x0204);
}

#[test]
fn instruction_not_key_equal() {
    let rom = vec![0xE0, 0x9E];

    let mut chip = Chip8::new();
    chip.initialize();
    chip.load_rom(rom);
    chip.set_v(0, 0x3);
    chip.cycle().unwrap();

    assert_eq!(chip.program_counter(), 0x0202);
}

#[test]
fn instruction_key_not_equal() {
    let rom = vec![0xE0, 0xA1];

    let mut chip = Chip8::new();
    chip.initialize();
    chip.load_rom(rom);
    chip.set_v(0, 0x3);
    chip.cycle().unwrap();

    assert_eq!(chip.program_counter(), 0x0204);
}

#[test]
fn instruction_not_key_not_equal() {
    let rom = vec![0xE0, 0xA1];

    let mut chip = Chip8::new();
    chip.initialize();
    chip.load_rom(rom);
    chip.set_v(0, 0x3);
    chip.set_key(3, 0x1);
    chip.cycle().unwrap();

    assert_eq!(chip.program_counter(), 0x0202);
}

#[test]
fn instruction_get_timer() {
    let rom = vec![0xF0, 0x07];

    let mut chip = Chip8::new();
    chip.initialize();
    chip.load_rom(rom);
    chip.set_delay_timer(0x12);
    chip.cycle().unwrap();

    assert_eq!(chip.v(0), 0x12);
    assert_eq!(chip.program_counter(), 0x0202);
}

#[test]
fn instruction_key_pressed() {
    let rom = vec![0xF0, 0x0A];

    let mut chip = Chip8::new();
    chip.initialize();
    chip.load_rom(rom);

    chip.cycle().unwrap();
    assert_eq!(chip.program_counter(), 0x0200);

    chip.set_key(5, 0x1);
    chip.cycle().unwrap();

    assert_eq!(chip.v(0), 0x05);
    assert_eq!(chip.program_counter(), 0x0202);
}

#[test]
fn instruction_set_timer() {
    let rom = vec![0xF0, 0x15];

    let mut chip = Chip8::new();
    chip.initialize();
    chip.load_rom(rom);
    chip.set_v(0, 0x12);
    chip.cycle().unwrap();

    assert_eq!(chip.delay_timer(), 0x11);
    assert_eq!(chip.program_counter(), 0x0202);
}

#[test]
fn instruction_set_sound() {
    let rom = vec![0xF0, 0x18];

    let mut chip = Chip8::new();
    chip.initialize();
    chip.load_rom(rom);
    chip.set_v(0, 0x12);
    chip.cycle().unwrap();

    assert_eq!(chip.sound_timer(), 0x11);
    assert_eq!(chip.program_counter(), 0x0202);
}

#[test]
fn instruction_add_i() {
    let rom = vec![0xF0, 0x1E];

    let mut chip = Chip8::new();
    chip.initialize();
    chip.load_rom(rom);
    chip.set_v(0, 0x12);
    chip.cycle().unwrap();

    assert_eq!(chip.reg_i(), 0x0012);
    assert_eq!(chip.program_counter(), 0x0202);
}

#[test]
fn instruction_sprite_addr() {
    let rom = vec![0xF0, 0x29];

    let mut chip = Chip8::new();
    chip.initialize();
    chip.load_rom(rom);
    chip.set_v(0, 0x1);
    chip.cycle().unwrap();

    assert_eq!(chip.reg_i(), 0x0005);
    assert_eq!(chip.program_counter(), 0x0202);
}

#[test]
fn instruction_bcd() {
    let rom = vec![0xF0, 0x33];

    let mut chip = Chip8::new();
    chip.initialize();
    chip.load_rom(rom);
    chip.set_v(0, 0xF3);
    chip.set_reg_i(0x0500);
    chip.cycle().unwrap();

    assert_eq!(chip.read_mem(0x0500), 2);
    assert_eq!(chip.read_mem(0x0501), 4);
    assert_eq!(chip.read_mem(0x0502), 3);
    assert_eq!(chip.program_counter(), 0x0202);
}

#[test]
fn instruction_store() {
    let rom = vec![0xF2, 0x55];

    let mut chip = Chip8::new();
    chip.initialize();
    chip.load_rom(rom);
    chip.set_v(0, 0x12);
    chip.set_v(1, 0x34);
    chip.set_v(2, 0x56);
    chip.set_reg_i(0x500);
    chip.cycle().unwrap();

    assert_eq!(chip.read_mem(0x0500), 0x12);
    assert_eq!(chip.read_mem(0x0501), 0x34);
    assert_eq!(chip.read_mem(0x0502), 0x56);
    assert_eq!(chip.program_counter(), 0x0202);
}

#[test]
fn instruction_load() {
    let rom = vec![0xF2, 0x65];

    let mut chip = Chip8::new();
    chip.initialize();
    chip.load_rom(rom);
    chip.write_mem(0x0500, 0x12);
    chip.write_mem(0x0501, 0x34);
    chip.write_mem(0x0502, 0x56);
    chip.set_reg_i(0x500);
    chip.cycle().unwrap();

    assert_eq!(chip.v(0), 0x12);
    assert_eq!(chip.v(1), 0x34);
    assert_eq!(chip.v(2), 0x56);
    assert_eq!(chip.program_counter(), 0x0202);
}

#[test]
fn instruction_display() {
    let rom = vec![0xD0, 0x05];

    let mut chip = Chip8::new();
    chip.initialize();
    chip.load_rom(rom);
    chip.set_reg_i(0x0000);
    chip.cycle().unwrap();

    assert_eq!(chip.program_counter(), 0x0202);
    assert_eq!(chip.gfx().pixel(0), 0xFF);
    assert_eq!(chip.gfx().pixel(1), 0xFF);
    assert_eq!(chip.gfx().pixel(2), 0xFF);
    assert_eq!(chip.gfx().pixel(3), 0xFF);
    assert_eq!(chip.gfx().pixel(4), 0x00);
    assert_eq!(chip.gfx().pixel(5), 0x00);
    assert_eq!(chip.gfx().pixel(6), 0x00);
    assert_eq!(chip.gfx().pixel(7), 0x00);

    assert_eq!(chip.gfx().pixel(64 + 0), 0xFF);
    assert_eq!(chip.gfx().pixel(64 + 1), 0x00);
    assert_eq!(chip.gfx().pixel(64 + 2), 0x00);
    assert_eq!(chip.gfx().pixel(64 + 3), 0xFF);
    assert_eq!(chip.gfx().pixel(64 + 4), 0x00);
    assert_eq!(chip.gfx().pixel(64 + 5), 0x00);
    assert_eq!(chip.gfx().pixel(64 + 6), 0x00);
    assert_eq!(chip.gfx().pixel(64 + 7), 0x00);
}
