//! The mathematical model of the machine: an abstract state, and the
//! effect of each instruction on it.
//!
//! `Chip8View` is the abstract value of the interpreter. `fetch_word` and
//! `after_fetch` model the fetch step, `instr_fault` says which decoded
//! instructions halt the machine from a given state, and `instr_post` gives
//! the state after a non-faulting instruction. Sprite drawing is modelled
//! by the recursive functions `draw_row_rec` (one sprite row, bit by bit)
//! and `draw_rec` (row by row).

use vstd::prelude::*;

use crate::decode::Instr;

verus! {

/// Bytes of addressable memory.
pub const RAM_SIZE: usize = 4096;
/// Width of the display in cells.
pub const DISPLAY_WIDTH: usize = 64;
/// Height of the display in cells.
pub const DISPLAY_HEIGHT: usize = 32;
/// Number of general-purpose registers.
pub const REG_COUNT: usize = 16;
/// Number of key lines on the pad.
pub const KEY_COUNT: usize = 16;
/// Address where a loaded program begins, and the initial program counter.
pub const START_ADDR: usize = 0x200;
/// Base address of the built-in glyph table.
pub const FONT_ADDR: usize = 0x050;
/// Length in bytes of the glyph table: 16 glyphs of 5 bytes each.
pub const FONT_SIZE: usize = 80;
/// Largest program that fits between the load address and the end of memory.
pub const ROM_CAPACITY: usize = RAM_SIZE - START_ADDR;

/// A fatal condition: the machine halts, its state no longer advances.
#[derive(Clone, Copy, Debug, PartialEq, Eq, Structural)]
pub enum Fault {
    /// A fetch or an indexed memory access lay beyond the address space,
    /// or a register selected a key line beyond the pad.
    OutOfBounds,
    /// A subroutine call found the call stack full.
    StackOverflow,
    /// A return found the call stack empty.
    StackUnderflow,
}

/// The non-fatal outcome of one cycle.
#[derive(Clone, Copy, Debug, PartialEq, Eq, Structural)]
pub enum Step {
    /// The instruction executed normally.
    Normal,
    /// The fetched word matched no instruction pattern; it is reported and
    /// execution continues at the already-advanced program counter.
    Unknown(u16),
}

/// The abstract state of the machine.
#[verifier::ext_equal]
pub ghost struct Chip8View {
    /// The 4096-byte memory image.
    pub ram: Seq<u8>,
    /// The 64x32 display, row-major.
    pub display: Seq<bool>,
    /// The 16 key lines.
    pub keypad: Seq<bool>,
    /// The call stack, bottom to top.
    pub stack: Seq<u16>,
    /// Program counter: address of the next instruction to fetch.
    pub pc: u16,
    /// The 16-bit index register.
    pub i_reg: u16,
    /// The registers V0..VF.
    pub v: Seq<u8>,
    /// Delay timer.
    pub d_timer: u8,
    /// Sound timer.
    pub s_timer: u8,
    /// Shift quirk: shifts read VY instead of VX.
    pub shift_quirk: bool,
    /// Jump quirk: the offset jump reads VX instead of V0.
    pub jump_quirk: bool,
}

impl Chip8View {
    /// The fixed dimensions of the machine.
    pub open spec fn wf(self) -> bool {
        &&& self.ram.len() == RAM_SIZE
        &&& self.display.len() == DISPLAY_WIDTH * DISPLAY_HEIGHT
        &&& self.keypad.len() == KEY_COUNT
        &&& self.v.len() == REG_COUNT
        &&& self.stack.len() <= crate::stack::STACK_CAPACITY
    }
}

/// Addition of two bytes with wraparound.
pub open spec fn wrap_add8(a: u8, b: u8) -> u8 {
    if a + b > 255 {
        (a + b - 256) as u8
    } else {
        (a + b) as u8
    }
}

/// Subtraction of two bytes with wraparound.
pub open spec fn wrap_sub8(a: u8, b: u8) -> u8 {
    if a - b < 0 {
        (a - b + 256) as u8
    } else {
        (a - b) as u8
    }
}

/// Addition of two 16-bit values with wraparound.
pub open spec fn wrap_add16(a: u16, b: u16) -> u16 {
    if a + b > 65535 {
        (a + b - 65536) as u16
    } else {
        (a + b) as u16
    }
}

/// One timer tick: decrement if nonzero, clamp at zero.
pub open spec fn tick_down(t: u8) -> u8 {
    if t > 0 {
        (t - 1) as u8
    } else {
        0
    }
}

/// The big-endian instruction word at the program counter.
pub open spec fn fetch_word(s: Chip8View) -> u16 {
    ((s.ram[s.pc as int] as u16) << 8) | (s.ram[s.pc as int + 1] as u16)
}

/// The state right after a fetch: the program counter has advanced by two.
pub open spec fn after_fetch(s: Chip8View) -> Chip8View {
    Chip8View { pc: (s.pc + 2) as u16, ..s }
}

/// A display of the machine's dimensions with every cell off.
pub open spec fn blank_display() -> Seq<bool> {
    Seq::new((DISPLAY_WIDTH * DISPLAY_HEIGHT) as nat, |i: int| false)
}

/// The lowest pressed key line at or above `k`, scanning upward.
pub open spec fn first_pressed_from(keys: Seq<bool>, k: u8) -> Option<u8>
    decreases KEY_COUNT - k,
{
    if k >= KEY_COUNT {
        None
    } else if keys[k as int] {
        Some(k)
    } else {
        first_pressed_from(keys, (k + 1) as u8)
    }
}

/// Whether bit `col` of a sprite row byte is set, counting from the most
/// significant bit.
pub open spec fn row_bit(b: u8, col: u8) -> bool {
    b & (0x80u8 >> col) != 0
}

/// Drawing the bits of one sprite row byte from column `col` on, onto row
/// `cy` of the display starting at column `x`. Bits that would land at or
/// beyond the right edge are not drawn. Returns the new display and
/// whether any drawn bit found its cell already set.
pub open spec fn draw_row_rec(d: Seq<bool>, b: u8, x: u8, cy: u8, col: u8) -> (Seq<bool>, bool)
    decreases 8 - col,
{
    if col >= 8 || x + col >= DISPLAY_WIDTH {
        (d, false)
    } else {
        let idx = cy * DISPLAY_WIDTH + x + col;
        let hit = row_bit(b, col) && d[idx];
        let d1 = if row_bit(b, col) {
            d.update(idx, !d[idx])
        } else {
            d
        };
        let rest = draw_row_rec(d1, b, x, cy, (col + 1) as u8);
        (rest.0, hit || rest.1)
    }
}

/// Drawing sprite rows `row..n` read from memory at `base + row`, onto the
/// display with origin `(x, y)`. Rows that would land at or beyond the
/// bottom edge are not drawn. Returns the new display and whether any
/// drawn bit found its cell already set.
pub open spec fn draw_rec(
    d: Seq<bool>,
    ram: Seq<u8>,
    base: u16,
    x: u8,
    y: u8,
    n: u8,
    row: u8,
) -> (Seq<bool>, bool)
    decreases n - row,
{
    if row >= n || y + row >= DISPLAY_HEIGHT {
        (d, false)
    } else {
        let r1 = draw_row_rec(d, ram[base + row], x, (y + row) as u8, 0);
        let r2 = draw_rec(r1.0, ram, base, x, y, n, (row + 1) as u8);
        (r2.0, r1.1 || r2.1)
    }
}

/// How many sprite row bytes a draw of height `n` at vertical origin `y`
/// reads from memory: every row is read up to and including the first row
/// at or beyond the bottom edge.
pub open spec fn sprite_rows_read(y: u8, n: u8) -> int {
    if n == 0 {
        0
    } else if n <= DISPLAY_HEIGHT - y {
        n as int
    } else {
        DISPLAY_HEIGHT - y + 1
    }
}

/// Which fatal condition, if any, the instruction meets in state `s`
/// (a state whose program counter has already advanced past it).
pub open spec fn instr_fault(s: Chip8View, i: Instr) -> Option<Fault> {
    match i {
        Instr::Ret => if s.stack.len() == 0 {
            Some(Fault::StackUnderflow)
        } else {
            None
        },
        Instr::Call { nnn } => if s.stack.len() >= crate::stack::STACK_CAPACITY {
            Some(Fault::StackOverflow)
        } else {
            None
        },
        Instr::SkipKey { x } => if s.v[x as int] >= KEY_COUNT {
            Some(Fault::OutOfBounds)
        } else {
            None
        },
        Instr::SkipNoKey { x } => if s.v[x as int] >= KEY_COUNT {
            Some(Fault::OutOfBounds)
        } else {
            None
        },
        Instr::Draw { x, y, n } => {
            let yo = s.v[y as int] % (DISPLAY_HEIGHT as u8);
            let rows = sprite_rows_read(yo, n);
            if rows > 0 && s.i_reg + rows > RAM_SIZE {
                Some(Fault::OutOfBounds)
            } else {
                None
            }
        },
        Instr::StoreBcd { x } => if s.i_reg + 2 >= RAM_SIZE {
            Some(Fault::OutOfBounds)
        } else {
            None
        },
        Instr::StoreRegs { x } => if s.i_reg + x >= RAM_SIZE {
            Some(Fault::OutOfBounds)
        } else {
            None
        },
        Instr::LoadRegs { x } => if s.i_reg + x >= RAM_SIZE {
            Some(Fault::OutOfBounds)
        } else {
            None
        },
        _ => None,
    }
}

/// The state after executing a non-faulting instruction from state `s`
/// (a state whose program counter has already advanced past it). `rnd` is
/// the byte drawn for `Random`; every other instruction ignores it.
pub open spec fn instr_post(s: Chip8View, i: Instr, rnd: u8) -> Chip8View {
    match i {
        Instr::ClearScreen => Chip8View { display: blank_display(), ..s },
        Instr::Ret => Chip8View { pc: s.stack.last(), stack: s.stack.drop_last(), ..s },
        Instr::Jump { nnn } => Chip8View { pc: nnn, ..s },
        Instr::Call { nnn } => Chip8View { pc: nnn, stack: s.stack.push(s.pc), ..s },
        Instr::SkipEqImm { x, nn } => Chip8View {
            pc: if s.v[x as int] == nn { (s.pc + 2) as u16 } else { s.pc },
            ..s
        },
        Instr::SkipNeImm { x, nn } => Chip8View {
            pc: if s.v[x as int] != nn { (s.pc + 2) as u16 } else { s.pc },
            ..s
        },
        Instr::SkipEqReg { x, y } => Chip8View {
            pc: if s.v[x as int] == s.v[y as int] { (s.pc + 2) as u16 } else { s.pc },
            ..s
        },
        Instr::SkipNeReg { x, y } => Chip8View {
            pc: if s.v[x as int] != s.v[y as int] { (s.pc + 2) as u16 } else { s.pc },
            ..s
        },
        Instr::SetImm { x, nn } => Chip8View { v: s.v.update(x as int, nn), ..s },
        Instr::AddImm { x, nn } => Chip8View {
            v: s.v.update(x as int, wrap_add8(s.v[x as int], nn)),
            ..s
        },
        Instr::Copy { x, y } => Chip8View { v: s.v.update(x as int, s.v[y as int]), ..s },
        Instr::Or { x, y } => Chip8View {
            v: s.v.update(x as int, s.v[x as int] | s.v[y as int]),
            ..s
        },
        Instr::And { x, y } => Chip8View {
            v: s.v.update(x as int, s.v[x as int] & s.v[y as int]),
            ..s
        },
        Instr::Xor { x, y } => Chip8View {
            v: s.v.update(x as int, s.v[x as int] ^ s.v[y as int]),
            ..s
        },
        Instr::AddReg { x, y } => {
            let carry: u8 = if s.v[x as int] + s.v[y as int] > 255 { 1 } else { 0 };
            Chip8View {
                v: s.v.update(x as int, wrap_add8(s.v[x as int], s.v[y as int])).update(
                    15,
                    carry,
                ),
                ..s
            }
        },
        Instr::SubReg { x, y } => {
            let no_borrow: u8 = if s.v[x as int] >= s.v[y as int] { 1 } else { 0 };
            Chip8View {
                v: s.v.update(x as int, wrap_sub8(s.v[x as int], s.v[y as int])).update(
                    15,
                    no_borrow,
                ),
                ..s
            }
        },
        Instr::SubnReg { x, y } => {
            let no_borrow: u8 = if s.v[y as int] >= s.v[x as int] { 1 } else { 0 };
            Chip8View {
                v: s.v.update(x as int, wrap_sub8(s.v[y as int], s.v[x as int])).update(
                    15,
                    no_borrow,
                ),
                ..s
            }
        },
        Instr::ShiftRight { x, y } => {
            let v1 = if s.shift_quirk {
                s.v.update(x as int, s.v[y as int])
            } else {
                s.v
            };
            let v2 = v1.update(15, v1[x as int] & 1);
            Chip8View { v: v2.update(x as int, v2[x as int] >> 1u8), ..s }
        },
        Instr::ShiftLeft { x, y } => {
            let v1 = if s.shift_quirk {
                s.v.update(x as int, s.v[y as int])
            } else {
                s.v
            };
            let v2 = v1.update(15, (v1[x as int] >> 7u8) & 1);
            Chip8View { v: v2.update(x as int, v2[x as int] << 1u8), ..s }
        },
        Instr::LoadIndex { nnn } => Chip8View { i_reg: nnn, ..s },
        Instr::JumpOffset { x, nnn } => {
            let off: u8 = if s.jump_quirk { s.v[x as int] } else { s.v[0] };
            Chip8View { pc: (off + nnn) as u16, ..s }
        },
        Instr::Random { x, nn } => Chip8View { v: s.v.update(x as int, rnd & nn), ..s },
        Instr::Draw { x, y, n } => {
            let xo = s.v[x as int] % (DISPLAY_WIDTH as u8);
            let yo = s.v[y as int] % (DISPLAY_HEIGHT as u8);
            let drawn = draw_rec(s.display, s.ram, s.i_reg, xo, yo, n, 0);
            Chip8View {
                display: drawn.0,
                v: s.v.update(15, if drawn.1 { 1u8 } else { 0u8 }),
                ..s
            }
        },
        Instr::SkipKey { x } => Chip8View {
            pc: if s.keypad[s.v[x as int] as int] { (s.pc + 2) as u16 } else { s.pc },
            ..s
        },
        Instr::SkipNoKey { x } => Chip8View {
            pc: if !s.keypad[s.v[x as int] as int] { (s.pc + 2) as u16 } else { s.pc },
            ..s
        },
        Instr::GetDelay { x } => Chip8View { v: s.v.update(x as int, s.d_timer), ..s },
        Instr::SetDelay { x } => Chip8View { d_timer: s.v[x as int], ..s },
        Instr::SetSound { x } => Chip8View { s_timer: s.v[x as int], ..s },
        Instr::AddIndex { x } => {
            let wrapped = wrap_add16(s.i_reg, s.v[x as int] as u16);
            let flag: u8 = if s.i_reg + s.v[x as int] > 65535 && wrapped > 0xFFF { 1 } else { 0 };
            Chip8View { i_reg: wrapped, v: s.v.update(15, flag), ..s }
        },
        Instr::WaitKey { x } => match first_pressed_from(s.keypad, 0) {
            Some(k) => Chip8View { v: s.v.update(x as int, k), ..s },
            None => Chip8View { pc: (s.pc - 2) as u16, ..s },
        },
        Instr::FontAddr { x } => Chip8View {
            i_reg: (FONT_ADDR + s.v[x as int] * 5) as u16,
            ..s
        },
        Instr::StoreBcd { x } => Chip8View {
            ram: s.ram.update(s.i_reg as int, s.v[x as int] % 10).update(
                s.i_reg as int + 1,
                (s.v[x as int] / 10) % 10,
            ).update(s.i_reg as int + 2, s.v[x as int] / 100),
            ..s
        },
        Instr::StoreRegs { x } => Chip8View {
            ram: Seq::new(
                RAM_SIZE as nat,
                |j: int|
                    if s.i_reg <= j <= s.i_reg + x {
                        s.v[j - s.i_reg]
                    } else {
                        s.ram[j]
                    },
            ),
            ..s
        },
        Instr::LoadRegs { x } => Chip8View {
            v: Seq::new(
                REG_COUNT as nat,
                |j: int|
                    if j <= x {
                        s.ram[s.i_reg + j]
                    } else {
                        s.v[j]
                    },
            ),
            ..s
        },
        Instr::Unknown => s,
    }
}

/// Which fatal condition, if any, one whole cycle meets from state `s`:
/// either the fetch itself lies out of bounds, or the fetched instruction
/// faults.
pub open spec fn cycle_fault(s: Chip8View) -> Option<Fault> {
    if s.pc + 1 >= RAM_SIZE {
        Some(Fault::OutOfBounds)
    } else {
        instr_fault(after_fetch(s), crate::decode::spec_decode(fetch_word(s)))
    }
}

/// The reported outcome of a non-faulting cycle from state `s`.
pub open spec fn cycle_step(s: Chip8View) -> Step {
    if crate::decode::spec_decode(fetch_word(s)) is Unknown {
        Step::Unknown(fetch_word(s))
    } else {
        Step::Normal
    }
}

/// How the state after a non-faulting cycle relates to the state before:
/// fetch advances the program counter, then the decoded instruction takes
/// effect. A `Random` instruction may observe any byte.
pub open spec fn cycle_ok_post(pre: Chip8View, post: Chip8View) -> bool {
    let i = crate::decode::spec_decode(fetch_word(pre));
    if i is Random {
        exists|rb: u8| post == instr_post(after_fetch(pre), i, rb)
    } else {
        post == instr_post(after_fetch(pre), i, 0)
    }
}

} // verus!
