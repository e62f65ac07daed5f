//! Construction, program loading, fetch, timers and the call stack.

use chip8::machine::{Chip8, LoadError, Quirks};
use chip8::semantics::{Fault, Step};
use chip8::stack::Stack;

#[test]
fn fresh_machine_state() {
    let c = Chip8::new(Quirks { shift: false, jump: false });
    assert_eq!(c.pc, 0x200);
    assert_eq!(c.i_reg, 0);
    assert_eq!(c.d_timer, 0);
    assert_eq!(c.s_timer, 0);
    assert_eq!(c.ram.len(), 4096);
    assert_eq!(c.display.len(), 64 * 32);
    assert!(c.display.iter().all(|p| !p));
    assert!(c.keypad.iter().all(|k| !k));
    assert!(c.v_reg.iter().all(|v| *v == 0));
    // the glyph table sits at 0x050..0x0A0, zero everywhere else
    assert_eq!(c.ram[0x050], 0xF0);
    assert_eq!(c.ram[0x051], 0x90);
    assert_eq!(c.ram[0x09F], 0x80);
    assert_eq!(c.ram[0x04F], 0x00);
    assert_eq!(c.ram[0x0A0], 0x00);
    assert_eq!(c.ram[0x200], 0x00);
}

#[test]
fn load_rom_places_bytes_at_start_addr() {
    let mut c = Chip8::new(Quirks { shift: false, jump: false });
    let r = c.load_rom(vec![0xAB, 0xCD, 0xEF]);
    assert_eq!(r, Ok(()));
    assert_eq!(c.ram[0x200], 0xAB);
    assert_eq!(c.ram[0x201], 0xCD);
    assert_eq!(c.ram[0x202], 0xEF);
    assert_eq!(c.ram[0x203], 0x00);
    // the glyph table is untouched
    assert_eq!(c.ram[0x050], 0xF0);
}

#[test]
fn load_rom_rejects_oversized_program() {
    let mut c = Chip8::new(Quirks { shift: false, jump: false });
    assert_eq!(c.load_rom(vec![0u8; 3585]), Err(LoadError::TooLarge));
    // nothing was written
    assert_eq!(c.ram[0x200], 0x00);
    // the largest program that fits is accepted
    assert_eq!(c.load_rom(vec![7u8; 3584]), Ok(()));
    assert_eq!(c.ram[0xFFF], 7);
}

#[test]
fn fetch_combines_big_endian_and_advances() {
    let mut c = Chip8::new(Quirks { shift: false, jump: false });
    c.load_rom(vec![0x12, 0x34]).unwrap();
    let w = c.fetch();
    assert_eq!(w, 0x1234);
    assert_eq!(c.pc, 0x202);
}

#[test]
fn fetch_out_of_bounds_faults() {
    let mut c = Chip8::new(Quirks { shift: false, jump: false });
    c.pc = 4095;
    assert_eq!(c.cycle(), Err(Fault::OutOfBounds));
    assert_eq!(c.pc, 4095);
}

#[test]
fn timer_floor() {
    let mut c = Chip8::new(Quirks { shift: false, jump: false });
    c.d_timer = 3;
    c.s_timer = 3;
    c.timer_tick();
    c.timer_tick();
    c.timer_tick();
    assert_eq!(c.d_timer, 0);
    assert_eq!(c.s_timer, 0);
    c.timer_tick();
    c.timer_tick();
    assert_eq!(c.d_timer, 0);
    assert_eq!(c.s_timer, 0);
}

#[test]
fn stack_push_pop_order() {
    let mut s = Stack::new();
    assert_eq!(s.len(), 0);
    s.push(0x202);
    s.push(0x304);
    assert_eq!(s.len(), 2);
    assert_eq!(s.pop(), 0x304);
    assert_eq!(s.pop(), 0x202);
    assert_eq!(s.len(), 0);
}

#[test]
fn set_key_changes_one_line() {
    let mut c = Chip8::new(Quirks { shift: false, jump: false });
    c.set_key(0xA, true);
    assert!(c.keypad[0xA]);
    assert!(!c.keypad[0x9]);
    c.set_key(0xA, false);
    assert!(!c.keypad[0xA]);
}

#[test]
fn unknown_opcode_is_reported_and_skipped() {
    let mut c = Chip8::new(Quirks { shift: false, jump: false });
    c.load_rom(vec![0x53, 0x21]).unwrap();
    let before_v: Vec<u8> = c.v_reg.clone();
    assert_eq!(c.cycle(), Ok(Step::Unknown(0x5321)));
    assert_eq!(c.pc, 0x202);
    assert_eq!(c.v_reg, before_v);
}
