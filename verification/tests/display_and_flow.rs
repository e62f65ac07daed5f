//! Sprite drawing, the display, and call/return control flow.

use chip8::machine::{Chip8, Quirks};
use chip8::semantics::{Fault, Step};

fn machine_running(rom: Vec<u8>) -> Chip8 {
    let mut c = Chip8::new(Quirks { shift: false, jump: false });
    c.load_rom(rom).unwrap();
    c
}

#[test]
fn draw_glyph_zero_in_top_left() {
    // F0 29 with V0 = 0 points the index register at the glyph for digit
    // 0; D1 25 draws it at (V1, V2) = (0, 0), five rows tall
    let mut c = machine_running(vec![0xF0, 0x29, 0xD1, 0x25]);
    c.cycle().unwrap();
    assert_eq!(c.i_reg, 0x050);
    c.cycle().unwrap();
    let glyph: [u8; 5] = [0xF0, 0x90, 0x90, 0x90, 0xF0];
    for row in 0..5 {
        for col in 0..8 {
            let expected = glyph[row] & (0x80 >> col) != 0;
            assert_eq!(c.display[row * 64 + col], expected);
        }
    }
    assert_eq!(c.v_reg[0xF], 0);
}

#[test]
fn draw_twice_restores_display_and_reports_collision() {
    let mut c = machine_running(vec![0xF0, 0x29, 0xD1, 0x25, 0xD1, 0x25]);
    c.cycle().unwrap();
    c.cycle().unwrap();
    assert_eq!(c.v_reg[0xF], 0);
    assert!(c.display.iter().any(|p| *p));
    c.cycle().unwrap();
    assert_eq!(c.v_reg[0xF], 1);
    assert!(c.display.iter().all(|p| !p));
}

#[test]
fn draw_clips_at_edges() {
    // draw the digit-0 glyph with its origin near the bottom-right corner
    let mut c = machine_running(vec![0xF0, 0x29, 0xD1, 0x25]);
    c.v_reg[0x1] = 62;
    c.v_reg[0x2] = 30;
    c.cycle().unwrap();
    c.cycle().unwrap();
    // rows 2..5 and columns 2..8 of the glyph fall outside and are not
    // drawn (no wraparound)
    assert!(c.display[30 * 64 + 62]); // glyph row 0 is 0xF0: first two bits set
    assert!(c.display[30 * 64 + 63]);
    assert!(c.display[31 * 64 + 62]); // glyph row 1 is 0x90: first bit set
    assert!(!c.display[31 * 64 + 63]); // second bit of 0x90 is clear
    assert!(!c.display[0]); // nothing wrapped to the top-left
    assert_eq!(c.v_reg[0xF], 0);
}

#[test]
fn draw_origin_is_taken_modulo_display_size() {
    let mut c = machine_running(vec![0xF0, 0x29, 0xD1, 0x25]);
    c.v_reg[0x1] = 64; // wraps to column 0
    c.v_reg[0x2] = 32; // wraps to row 0
    c.cycle().unwrap();
    c.cycle().unwrap();
    assert!(c.display[0]);
}

#[test]
fn draw_sprite_read_beyond_memory_faults() {
    let mut c = machine_running(vec![0xD0, 0x12]);
    c.i_reg = 4095;
    assert_eq!(c.cycle(), Err(Fault::OutOfBounds));
    // nothing was drawn
    assert!(c.display.iter().all(|p| !p));
}

#[test]
fn draw_zero_height_draws_nothing() {
    let mut c = machine_running(vec![0xD0, 0x10]);
    c.i_reg = 4095; // no row is read, so even this address is fine
    assert_eq!(c.cycle(), Ok(Step::Normal));
    assert!(c.display.iter().all(|p| !p));
    assert_eq!(c.v_reg[0xF], 0);
}

#[test]
fn skip_no_key_register_beyond_pad_faults() {
    let mut c = machine_running(vec![0xE0, 0xA1]);
    c.v_reg[0x0] = 255;
    assert_eq!(c.cycle(), Err(Fault::OutOfBounds));
}

#[test]
fn clear_screen_blanks_display() {
    let mut c = machine_running(vec![0xF0, 0x29, 0xD1, 0x25, 0x00, 0xE0]);
    c.cycle().unwrap();
    c.cycle().unwrap();
    assert!(c.display.iter().any(|p| *p));
    c.cycle().unwrap();
    assert!(c.display.iter().all(|p| !p));
}

#[test]
fn call_then_return_resumes_after_call() {
    // at 0x200: call 0x300; at 0x300: return
    let mut rom = vec![0u8; 0x102];
    rom[0] = 0x23;
    rom[1] = 0x00;
    rom[0x100] = 0x00;
    rom[0x101] = 0xEE;
    let mut c = machine_running(rom);
    assert_eq!(c.cycle(), Ok(Step::Normal));
    assert_eq!(c.pc, 0x300);
    assert_eq!(c.cycle(), Ok(Step::Normal));
    assert_eq!(c.pc, 0x202);
}

#[test]
fn call_stack_overflow_faults() {
    // 0x200 calls itself: each cycle pushes another return address
    let mut c = machine_running(vec![0x22, 0x00]);
    for _ in 0..16 {
        assert_eq!(c.cycle(), Ok(Step::Normal));
        assert_eq!(c.pc, 0x200);
    }
    assert_eq!(c.cycle(), Err(Fault::StackOverflow));
}

#[test]
fn return_with_empty_stack_faults() {
    let mut c = machine_running(vec![0x00, 0xEE]);
    assert_eq!(c.cycle(), Err(Fault::StackUnderflow));
    assert_eq!(c.pc, 0x202);
}
