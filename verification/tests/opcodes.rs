//! Opcode semantics, cycle by cycle.

use chip8::machine::{Chip8, Quirks};
use chip8::semantics::{Fault, Step};

fn machine_with(rom: Vec<u8>) -> Chip8 {
    let mut c = Chip8::new(Quirks { shift: false, jump: false });
    c.load_rom(rom).unwrap();
    c
}

#[test]
fn set_then_add_wraps_without_touching_vf() {
    // set VA := 0xFF, then add VA, 0x01: wraps to 0x00
    let mut c = machine_with(vec![0x6A, 0xFF, 0x7A, 0x01]);
    c.v_reg[0xF] = 7;
    assert_eq!(c.cycle(), Ok(Step::Normal));
    assert_eq!(c.v_reg[0xA], 0xFF);
    assert_eq!(c.cycle(), Ok(Step::Normal));
    assert_eq!(c.v_reg[0xA], 0x00);
    assert_eq!(c.v_reg[0xF], 7);
}

#[test]
fn add_registers_sets_carry() {
    // V0 := 0xFF, V1 := 0x01, add V0, V1
    let mut c = machine_with(vec![0x60, 0xFF, 0x61, 0x01, 0x80, 0x14]);
    c.cycle().unwrap();
    c.cycle().unwrap();
    c.cycle().unwrap();
    assert_eq!(c.v_reg[0x0], 0x00);
    assert_eq!(c.v_reg[0xF], 1);
}

#[test]
fn add_registers_clears_carry() {
    let mut c = machine_with(vec![0x60, 0x01, 0x61, 0x01, 0x80, 0x14]);
    c.v_reg[0xF] = 1;
    c.cycle().unwrap();
    c.cycle().unwrap();
    c.cycle().unwrap();
    assert_eq!(c.v_reg[0x0], 0x02);
    assert_eq!(c.v_reg[0xF], 0);
}

#[test]
fn sub_registers_borrow() {
    // V0 := 0x01, V1 := 0x02, sub V0, V1: borrow, VF = 0
    let mut c = machine_with(vec![0x60, 0x01, 0x61, 0x02, 0x80, 0x15]);
    c.v_reg[0xF] = 1;
    c.cycle().unwrap();
    c.cycle().unwrap();
    c.cycle().unwrap();
    assert_eq!(c.v_reg[0x0], 0xFF);
    assert_eq!(c.v_reg[0xF], 0);
}

#[test]
fn sub_registers_no_borrow() {
    let mut c = machine_with(vec![0x60, 0x05, 0x61, 0x02, 0x80, 0x15]);
    c.cycle().unwrap();
    c.cycle().unwrap();
    c.cycle().unwrap();
    assert_eq!(c.v_reg[0x0], 0x03);
    assert_eq!(c.v_reg[0xF], 1);
}

#[test]
fn subn_registers() {
    // V0 := 0x02, V1 := 0x05, subn V0, V1: V0 = V1 - V0 = 3, no borrow
    let mut c = machine_with(vec![0x60, 0x02, 0x61, 0x05, 0x80, 0x17]);
    c.cycle().unwrap();
    c.cycle().unwrap();
    c.cycle().unwrap();
    assert_eq!(c.v_reg[0x0], 0x03);
    assert_eq!(c.v_reg[0xF], 1);
    // V0 := 0x05, V1 := 0x02: borrow
    let mut c = machine_with(vec![0x60, 0x05, 0x61, 0x02, 0x80, 0x17]);
    c.cycle().unwrap();
    c.cycle().unwrap();
    c.cycle().unwrap();
    assert_eq!(c.v_reg[0x0], 0xFD);
    assert_eq!(c.v_reg[0xF], 0);
}

#[test]
fn copy_or_and_xor() {
    let mut c = machine_with(vec![0x80, 0x10]);
    c.v_reg[0x1] = 0x5A;
    c.cycle().unwrap();
    assert_eq!(c.v_reg[0x0], 0x5A);

    let mut c = machine_with(vec![0x80, 0x11]);
    c.v_reg[0x0] = 0xF0;
    c.v_reg[0x1] = 0x0F;
    c.cycle().unwrap();
    assert_eq!(c.v_reg[0x0], 0xFF);

    let mut c = machine_with(vec![0x80, 0x12]);
    c.v_reg[0x0] = 0xF6;
    c.v_reg[0x1] = 0x0F;
    c.cycle().unwrap();
    assert_eq!(c.v_reg[0x0], 0x06);

    let mut c = machine_with(vec![0x80, 0x13]);
    c.v_reg[0x0] = 0xFF;
    c.v_reg[0x1] = 0x0F;
    c.cycle().unwrap();
    assert_eq!(c.v_reg[0x0], 0xF0);
}

#[test]
fn skip_instructions() {
    // skip-eq imm taken
    let mut c = machine_with(vec![0x30, 0x07]);
    c.v_reg[0] = 0x07;
    c.cycle().unwrap();
    assert_eq!(c.pc, 0x204);
    // skip-eq imm not taken
    let mut c = machine_with(vec![0x30, 0x07]);
    c.cycle().unwrap();
    assert_eq!(c.pc, 0x202);
    // skip-ne imm
    let mut c = machine_with(vec![0x40, 0x07]);
    c.cycle().unwrap();
    assert_eq!(c.pc, 0x204);
    // skip-eq reg
    let mut c = machine_with(vec![0x50, 0x10]);
    c.v_reg[0] = 3;
    c.v_reg[1] = 3;
    c.cycle().unwrap();
    assert_eq!(c.pc, 0x204);
    // skip-ne reg
    let mut c = machine_with(vec![0x90, 0x10]);
    c.v_reg[0] = 3;
    c.v_reg[1] = 4;
    c.cycle().unwrap();
    assert_eq!(c.pc, 0x204);
}

#[test]
fn jump_sets_pc() {
    let mut c = machine_with(vec![0x1A, 0xBC]);
    c.cycle().unwrap();
    assert_eq!(c.pc, 0xABC);
}

#[test]
fn jump_offset_quirk_selects_register() {
    // quirk off: offset comes from V0
    let mut c = machine_with(vec![0xB2, 0x10]);
    c.v_reg[0x0] = 4;
    c.v_reg[0x2] = 8;
    c.cycle().unwrap();
    assert_eq!(c.pc, 0x214);
    // quirk on: offset comes from VX (here V2)
    let mut c = Chip8::new(Quirks { shift: false, jump: true });
    c.load_rom(vec![0xB2, 0x10]).unwrap();
    c.v_reg[0x0] = 4;
    c.v_reg[0x2] = 8;
    c.cycle().unwrap();
    assert_eq!(c.pc, 0x218);
}

#[test]
fn shift_right_extracts_low_bit() {
    let mut c = machine_with(vec![0x80, 0x16]);
    c.v_reg[0x0] = 0x05;
    c.v_reg[0x1] = 0xF0;
    c.cycle().unwrap();
    assert_eq!(c.v_reg[0x0], 0x02);
    assert_eq!(c.v_reg[0xF], 1);
}

#[test]
fn shift_right_quirk_copies_vy_first() {
    let mut c = Chip8::new(Quirks { shift: true, jump: false });
    c.load_rom(vec![0x80, 0x16]).unwrap();
    c.v_reg[0x0] = 0x05;
    c.v_reg[0x1] = 0xF0;
    c.cycle().unwrap();
    assert_eq!(c.v_reg[0x0], 0x78);
    assert_eq!(c.v_reg[0xF], 0);
}

#[test]
fn shift_left_extracts_high_bit() {
    let mut c = machine_with(vec![0x80, 0x1E]);
    c.v_reg[0x0] = 0x81;
    c.cycle().unwrap();
    assert_eq!(c.v_reg[0x0], 0x02);
    assert_eq!(c.v_reg[0xF], 1);
}

#[test]
fn load_index_and_add_index() {
    let mut c = machine_with(vec![0xA1, 0x23, 0xF0, 0x1E]);
    c.v_reg[0x0] = 5;
    c.cycle().unwrap();
    assert_eq!(c.i_reg, 0x123);
    c.cycle().unwrap();
    assert_eq!(c.i_reg, 0x128);
    assert_eq!(c.v_reg[0xF], 0);
}

#[test]
fn add_index_wraps_and_keeps_flag_clear() {
    // the 16-bit addition wraps; the flag test of the reference behaviour
    // (overflow and a result above 0xFFF) cannot be met by a wrapped sum,
    // so VF stays 0
    let mut c = machine_with(vec![0xF0, 0x1E]);
    c.i_reg = 0xFFFF;
    c.v_reg[0x0] = 0x10;
    c.cycle().unwrap();
    assert_eq!(c.i_reg, 0x000F);
    assert_eq!(c.v_reg[0xF], 0);
}

#[test]
fn random_is_masked() {
    let mut c = machine_with(vec![0xC0, 0x00, 0xC1, 0x0F]);
    c.v_reg[0x0] = 0xAA;
    c.cycle().unwrap();
    assert_eq!(c.v_reg[0x0], 0x00);
    c.cycle().unwrap();
    assert!(c.v_reg[0x1] <= 0x0F);
}

#[test]
fn timers_via_opcodes() {
    // set delay from V0, read it back into V1, set sound from V2
    let mut c = machine_with(vec![0xF0, 0x15, 0xF1, 0x07, 0xF2, 0x18]);
    c.v_reg[0x0] = 42;
    c.v_reg[0x2] = 9;
    c.cycle().unwrap();
    assert_eq!(c.d_timer, 42);
    c.cycle().unwrap();
    assert_eq!(c.v_reg[0x1], 42);
    c.cycle().unwrap();
    assert_eq!(c.s_timer, 9);
}

#[test]
fn skip_key_pressed_and_not_pressed() {
    let mut c = machine_with(vec![0xE0, 0x9E]);
    c.v_reg[0x0] = 5;
    c.set_key(5, true);
    c.cycle().unwrap();
    assert_eq!(c.pc, 0x204);

    let mut c = machine_with(vec![0xE0, 0x9E]);
    c.v_reg[0x0] = 5;
    c.cycle().unwrap();
    assert_eq!(c.pc, 0x202);

    let mut c = machine_with(vec![0xE0, 0xA1]);
    c.v_reg[0x0] = 5;
    c.cycle().unwrap();
    assert_eq!(c.pc, 0x204);
}

#[test]
fn skip_key_register_beyond_pad_faults() {
    let mut c = machine_with(vec![0xE0, 0x9E]);
    c.v_reg[0x0] = 16;
    assert_eq!(c.cycle(), Err(Fault::OutOfBounds));
    // the fetch had already advanced the program counter
    assert_eq!(c.pc, 0x202);
}

#[test]
fn wait_key_busy_waits_then_stores_lowest() {
    let mut c = machine_with(vec![0xF0, 0x0A]);
    // no key: the instruction re-executes next cycle
    c.cycle().unwrap();
    assert_eq!(c.pc, 0x200);
    c.cycle().unwrap();
    assert_eq!(c.pc, 0x200);
    // two keys down: the lowest line wins
    c.set_key(9, true);
    c.set_key(3, true);
    c.cycle().unwrap();
    assert_eq!(c.v_reg[0x0], 3);
    assert_eq!(c.pc, 0x202);
}

#[test]
fn font_address() {
    let mut c = machine_with(vec![0xF0, 0x29]);
    c.v_reg[0x0] = 0xA;
    c.cycle().unwrap();
    assert_eq!(c.i_reg, 0x050 + 0xA * 5);
}

#[test]
fn bcd_writes_ones_digit_first() {
    // the reference behaviour writes the ones digit at the index register
    // and the hundreds digit two cells later
    let mut c = machine_with(vec![0xF1, 0x33]);
    c.v_reg[0x1] = 137;
    c.i_reg = 0x300;
    c.cycle().unwrap();
    assert_eq!(c.ram[0x300], 7);
    assert_eq!(c.ram[0x301], 3);
    assert_eq!(c.ram[0x302], 1);
}

#[test]
fn bcd_out_of_bounds_faults() {
    let mut c = machine_with(vec![0xF0, 0x33]);
    c.i_reg = 4094;
    assert_eq!(c.cycle(), Err(Fault::OutOfBounds));
    let mut c = machine_with(vec![0xF0, 0x33]);
    c.i_reg = 4093;
    c.v_reg[0x0] = 5;
    assert_eq!(c.cycle(), Ok(Step::Normal));
    assert_eq!(c.ram[4093], 5);
}

#[test]
fn store_and_load_registers_round_trip() {
    let mut c = machine_with(vec![0xF3, 0x55, 0x63, 0x00, 0xF3, 0x65]);
    c.v_reg[0x0] = 10;
    c.v_reg[0x1] = 20;
    c.v_reg[0x2] = 30;
    c.v_reg[0x3] = 40;
    c.v_reg[0x4] = 50;
    c.i_reg = 0x400;
    c.cycle().unwrap();
    assert_eq!(c.ram[0x400], 10);
    assert_eq!(c.ram[0x401], 20);
    assert_eq!(c.ram[0x402], 30);
    assert_eq!(c.ram[0x403], 40);
    assert_eq!(c.ram[0x404], 0);
    // clobber V3, then load back
    c.cycle().unwrap();
    assert_eq!(c.v_reg[0x3], 0);
    c.cycle().unwrap();
    assert_eq!(c.v_reg[0x0], 10);
    assert_eq!(c.v_reg[0x3], 40);
    // V4 was beyond X and is untouched
    assert_eq!(c.v_reg[0x4], 50);
}

#[test]
fn store_registers_out_of_bounds_faults() {
    let mut c = machine_with(vec![0xF3, 0x55]);
    c.i_reg = 4093;
    assert_eq!(c.cycle(), Err(Fault::OutOfBounds));
    let mut c = machine_with(vec![0xF3, 0x55]);
    c.i_reg = 4092;
    assert_eq!(c.cycle(), Ok(Step::Normal));
}

#[test]
fn load_registers_out_of_bounds_faults() {
    let mut c = machine_with(vec![0xF2, 0x65]);
    c.i_reg = 4094;
    assert_eq!(c.cycle(), Err(Fault::OutOfBounds));
}

#[test]
fn end_to_end_set_set_add() {
    let mut c = machine_with(vec![0x6A, 0x05, 0x6B, 0x03, 0x8A, 0xB4]);
    assert_eq!(c.cycle(), Ok(Step::Normal));
    assert_eq!(c.cycle(), Ok(Step::Normal));
    assert_eq!(c.cycle(), Ok(Step::Normal));
    assert_eq!(c.v_reg[0xA], 8);
    assert_eq!(c.v_reg[0xF], 0);
    assert_eq!(c.pc, 0x206);
}
