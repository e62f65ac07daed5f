//! The interpreter: the machine state and its fetch / execute / cycle
//! operations, verified against the model in `semantics`.

use vstd::prelude::*;

use crate::decode::{decode, spec_decode, Instr};
use crate::semantics::{
    after_fetch, blank_display, cycle_fault, cycle_ok_post, cycle_step, draw_rec, draw_row_rec,
    fetch_word, first_pressed_from, instr_fault, instr_post, row_bit, sprite_rows_read, tick_down,
    wrap_add16, wrap_add8, wrap_sub8, Chip8View, Fault, Step, DISPLAY_HEIGHT, DISPLAY_WIDTH,
    FONT_ADDR, FONT_SIZE, KEY_COUNT, RAM_SIZE, REG_COUNT, ROM_CAPACITY, START_ADDR,
};
use crate::stack::{Stack, STACK_CAPACITY};

verus! {

/// The two documented behavioural toggles, fixed for the life of a
/// machine.
#[derive(Clone, Copy, Debug, PartialEq, Eq, Structural)]
pub struct Quirks {
    /// 8XY6 / 8XYE copy VY into VX before shifting.
    pub shift: bool,
    /// BNNN uses VX as the offset register instead of V0.
    pub jump: bool,
}

/// A program that does not fit between the load address and the end of
/// memory is rejected rather than truncated.
#[derive(Clone, Copy, Debug, PartialEq, Eq, Structural)]
pub enum LoadError {
    TooLarge,
}

/// The contents of memory after a program is copied in at the load
/// address, leaving every other byte as it was.
pub open spec fn load_ram(ram: Seq<u8>, rom: Seq<u8>) -> Seq<u8> {
    Seq::new(
        RAM_SIZE as nat,
        |i: int|
            if START_ADDR <= i < START_ADDR + rom.len() {
                rom[i - START_ADDR]
            } else {
                ram[i]
            },
    )
}

/// The built-in glyph table: one 5-byte glyph per hexadecimal digit, each
/// byte one row of a 4-wide pixel pattern.
pub open spec fn font_seq() -> Seq<u8> {
    seq![
        0xF0u8, 0x90, 0x90, 0x90, 0xF0, // 0
        0x20, 0x60, 0x20, 0x20, 0x70, // 1
        0xF0, 0x10, 0xF0, 0x80, 0xF0, // 2
        0xF0, 0x10, 0xF0, 0x10, 0xF0, // 3
        0x90, 0x90, 0xF0, 0x10, 0x10, // 4
        0xF0, 0x80, 0xF0, 0x10, 0xF0, // 5
        0xF0, 0x80, 0xF0, 0x90, 0xF0, // 6
        0xF0, 0x10, 0x20, 0x40, 0x40, // 7
        0xF0, 0x90, 0xF0, 0x90, 0xF0, // 8
        0xF0, 0x90, 0xF0, 0x10, 0xF0, // 9
        0xF0, 0x90, 0xF0, 0x90, 0x90, // A
        0xE0, 0x90, 0xE0, 0x90, 0xE0, // B
        0xF0, 0x80, 0x80, 0x80, 0xF0, // C
        0xE0, 0x90, 0x90, 0x90, 0xE0, // D
        0xF0, 0x80, 0xF0, 0x80, 0xF0, // E
        0xF0, 0x80, 0xF0, 0x80, 0x80, // F
    ]
}

/// What a fresh machine holds at address `i`: the glyph table in its
/// region, zero everywhere else.
pub open spec fn initial_ram_byte(i: int) -> u8 {
    if FONT_ADDR <= i < FONT_ADDR + FONT_SIZE {
        font_seq()[i - FONT_ADDR]
    } else {
        0
    }
}

/// The machine: memory, registers, call stack, timers, display and key
/// state, plus the quirk configuration.
pub struct Chip8 {
    /// The 64x32 display, row-major.
    pub display: Vec<bool>,
    /// The 16 key lines.
    pub keypad: Vec<bool>,
    /// The 4096-byte memory image.
    pub ram: Vec<u8>,
    /// The call stack.
    pub stack: Stack,
    /// Program counter.
    pub pc: u16,
    /// Index register.
    pub i_reg: u16,
    /// The registers V0..VF.
    pub v_reg: Vec<u8>,
    /// Delay timer.
    pub d_timer: u8,
    /// Sound timer.
    pub s_timer: u8,
    /// The quirk configuration supplied at construction.
    pub quirks: Quirks,
}

impl View for Chip8 {
    type V = Chip8View;

    open spec fn view(&self) -> Chip8View {
        Chip8View {
            ram: self.ram@,
            display: self.display@,
            keypad: self.keypad@,
            stack: self.stack@,
            pc: self.pc,
            i_reg: self.i_reg,
            v: self.v_reg@,
            d_timer: self.d_timer,
            s_timer: self.s_timer,
            shift_quirk: self.quirks.shift,
            jump_quirk: self.quirks.jump,
        }
    }
}

/// Relies on rand::random::<u8>: draws a byte from the thread-local
/// generator. Nothing is promised of its value; callers state what holds
/// of every byte.
#[verifier::external_body]
fn random_byte() -> u8 {
    rand::random()
}

/// The glyph table as a vector, equal to `font_seq`.
fn font_table() -> (t: Vec<u8>)
    ensures
        t@ == font_seq(),
{
    let mut t: Vec<u8> = Vec::new();
    t.push(0xF0); t.push(0x90); t.push(0x90); t.push(0x90); t.push(0xF0);
    t.push(0x20); t.push(0x60); t.push(0x20); t.push(0x20); t.push(0x70);
    t.push(0xF0); t.push(0x10); t.push(0xF0); t.push(0x80); t.push(0xF0);
    t.push(0xF0); t.push(0x10); t.push(0xF0); t.push(0x10); t.push(0xF0);
    t.push(0x90); t.push(0x90); t.push(0xF0); t.push(0x10); t.push(0x10);
    t.push(0xF0); t.push(0x80); t.push(0xF0); t.push(0x10); t.push(0xF0);
    t.push(0xF0); t.push(0x80); t.push(0xF0); t.push(0x90); t.push(0xF0);
    t.push(0xF0); t.push(0x10); t.push(0x20); t.push(0x40); t.push(0x40);
    t.push(0xF0); t.push(0x90); t.push(0xF0); t.push(0x90); t.push(0xF0);
    t.push(0xF0); t.push(0x90); t.push(0xF0); t.push(0x10); t.push(0xF0);
    t.push(0xF0); t.push(0x90); t.push(0xF0); t.push(0x90); t.push(0x90);
    t.push(0xE0); t.push(0x90); t.push(0xE0); t.push(0x90); t.push(0xE0);
    t.push(0xF0); t.push(0x80); t.push(0x80); t.push(0x80); t.push(0xF0);
    t.push(0xE0); t.push(0x90); t.push(0x90); t.push(0x90); t.push(0xE0);
    t.push(0xF0); t.push(0x80); t.push(0xF0); t.push(0x80); t.push(0xF0);
    t.push(0xF0); t.push(0x80); t.push(0xF0); t.push(0x80); t.push(0x80);
    proof {
        assert(t@ =~= font_seq());
    }
    t
}

impl Chip8 {
    /// The fixed dimensions of the machine hold.
    pub open spec fn wf(&self) -> bool {
        self@.wf()
    }

    /// A fresh machine: everything zeroed, the glyph table in memory, the
    /// program counter at the load address.
    pub fn new(quirks: Quirks) -> (c: Chip8)
        ensures
            c.wf(),
            c@.pc == START_ADDR,
            c@.i_reg == 0,
            c@.d_timer == 0,
            c@.s_timer == 0,
            c@.stack == Seq::<u16>::empty(),
            forall|i: int| 0 <= i < REG_COUNT ==> c@.v[i] == 0u8,
            forall|i: int| 0 <= i < DISPLAY_WIDTH * DISPLAY_HEIGHT ==> !c@.display[i],
            forall|i: int| 0 <= i < KEY_COUNT ==> !c@.keypad[i],
            forall|i: int| 0 <= i < RAM_SIZE ==> c@.ram[i] == initial_ram_byte(i),
            c@.shift_quirk == quirks.shift,
            c@.jump_quirk == quirks.jump,
    {
        let mut ram: Vec<u8> = vec![0u8; RAM_SIZE];
        let font = font_table();
        let mut k: usize = 0;
        while k < FONT_SIZE
            invariant
                ram@.len() == RAM_SIZE,
                font@ == font_seq(),
                font@.len() == FONT_SIZE,
                k <= FONT_SIZE,
                forall|i: int|
                    0 <= i < RAM_SIZE ==> ram@[i] == (if FONT_ADDR <= i < FONT_ADDR + k {
                        font_seq()[i - FONT_ADDR]
                    } else {
                        0u8
                    }),
            decreases FONT_SIZE - k,
        {
            ram[FONT_ADDR + k] = font[k];
            k = k + 1;
        }
        Chip8 {
            display: vec![false; DISPLAY_WIDTH * DISPLAY_HEIGHT],
            keypad: vec![false; KEY_COUNT],
            ram,
            stack: Stack::new(),
            pc: START_ADDR as u16,
            i_reg: 0,
            v_reg: vec![0u8; REG_COUNT],
            d_timer: 0,
            s_timer: 0,
            quirks,
        }
    }

    /// Copy a program into memory at the load address; a program larger
    /// than the remaining address space is rejected untouched.
    pub fn load_rom(&mut self, rom: Vec<u8>) -> (r: Result<(), LoadError>)
        requires
            old(self).wf(),
        ensures
            final(self).wf(),
            match r {
                Ok(()) => rom@.len() <= ROM_CAPACITY && final(self)@ == (Chip8View {
                    ram: load_ram(old(self)@.ram, rom@),
                    ..old(self)@
                }),
                Err(e) => e == LoadError::TooLarge && rom@.len() > ROM_CAPACITY
                    && final(self)@ == old(self)@,
            },
    {
        if rom.len() > ROM_CAPACITY {
            return Err(LoadError::TooLarge);
        }
        let ghost ram0: Seq<u8> = self.ram@;
        let mut k: usize = 0;
        while k < rom.len()
            invariant
                self.wf(),
                rom@.len() <= ROM_CAPACITY,
                k <= rom@.len(),
                self@ == (Chip8View { ram: self.ram@, ..old(self)@ }),
                self.ram@.len() == RAM_SIZE,
                forall|i: int|
                    0 <= i < RAM_SIZE ==> self.ram@[i] == (if START_ADDR <= i < START_ADDR + k {
                        rom@[i - START_ADDR]
                    } else {
                        ram0[i]
                    }),
            decreases rom@.len() - k,
        {
            self.ram[START_ADDR + k] = rom[k];
            k = k + 1;
        }
        proof {
            assert(self.ram@ =~= load_ram(ram0, rom@));
            assert(self@ =~= (Chip8View { ram: load_ram(old(self)@.ram, rom@), ..old(self)@ }));
        }
        Ok(())
    }

    /// Read the big-endian instruction word at the program counter and
    /// advance the program counter past it.
    pub fn fetch(&mut self) -> (w: u16)
        requires
            old(self).wf(),
            old(self).pc + 1 < RAM_SIZE,
        ensures
            final(self).wf(),
            w == fetch_word(old(self)@),
            final(self)@ == after_fetch(old(self)@),
    {
        let hi = self.ram[self.pc as usize];
        let lo = self.ram[self.pc as usize + 1];
        self.pc = self.pc + 2;
        ((hi as u16) << 8u16) | (lo as u16)
    }

    /// One timer tick: each timer decrements if nonzero and clamps at
    /// zero.
    pub fn timer_tick(&mut self)
        requires
            old(self).wf(),
        ensures
            final(self).wf(),
            final(self)@ == (Chip8View {
                d_timer: tick_down(old(self)@.d_timer),
                s_timer: tick_down(old(self)@.s_timer),
                ..old(self)@
            }),
    {
        if self.d_timer > 0 {
            self.d_timer = self.d_timer - 1;
        }
        if self.s_timer > 0 {
            self.s_timer = self.s_timer - 1;
        }
    }

    /// Sprite draw: XOR the rows of an `n`-row sprite read from memory at
    /// the index register onto the display at origin (VX mod 64, VY mod
    /// 32), clipping at the edges; VF reports whether any drawn bit found
    /// its cell already set. A sprite row that would be read from beyond
    /// memory is a fault, reported before anything is drawn.
    fn op_draw(&mut self, x: u8, y: u8, n: u8) -> (r: Option<Fault>)
        requires
            old(self).wf(),
            x < 16,
            y < 16,
            n < 16,
        ensures
            final(self).wf(),
            match r {
                None => instr_fault(old(self)@, Instr::Draw { x, y, n }) is None && final(self)@
                    == instr_post(old(self)@, Instr::Draw { x, y, n }, 0),
                Some(f) => instr_fault(old(self)@, Instr::Draw { x, y, n }) == Some(f)
                    && final(self)@ == old(self)@,
            },
    {
        let xo = self.v_reg[x as usize] % (DISPLAY_WIDTH as u8);
        let yo = self.v_reg[y as usize] % (DISPLAY_HEIGHT as u8);
        let rows_read: u16 = if n == 0 {
            0
        } else if (n as u16) <= (DISPLAY_HEIGHT as u16) - (yo as u16) {
            n as u16
        } else {
            (DISPLAY_HEIGHT as u16) - (yo as u16) + 1
        };
        proof {
            assert(rows_read == sprite_rows_read(yo, n));
        }
        if rows_read > 0 && (self.i_reg as u32) + (rows_read as u32) > RAM_SIZE as u32 {
            return Some(Fault::OutOfBounds);
        }
        let ghost s0: Chip8View = self@;
        let ghost d0: Seq<bool> = self.display@;
        let mut coll: bool = false;
        let mut row: u8 = 0;
        while row < n && yo + row < DISPLAY_HEIGHT as u8
            invariant
                s0 == old(self)@,
                s0.wf(),
                d0 == s0.display,
                self.ram@ == s0.ram,
                self.keypad@ == s0.keypad,
                self.stack@ == s0.stack,
                self.pc == s0.pc,
                self.i_reg == s0.i_reg,
                self.v_reg@ == s0.v,
                self.d_timer == s0.d_timer,
                self.s_timer == s0.s_timer,
                self.quirks.shift == s0.shift_quirk,
                self.quirks.jump == s0.jump_quirk,
                self.display@.len() == DISPLAY_WIDTH * DISPLAY_HEIGHT,
                x < 16,
                y < 16,
                n < 16,
                xo == s0.v[x as int] % (DISPLAY_WIDTH as u8),
                yo == s0.v[y as int] % (DISPLAY_HEIGHT as u8),
                xo < DISPLAY_WIDTH,
                yo < DISPLAY_HEIGHT,
                row <= n,
                sprite_rows_read(yo, n) > 0 ==> s0.i_reg + sprite_rows_read(yo, n) <= RAM_SIZE,
                draw_rec(d0, s0.ram, s0.i_reg, xo, yo, n, 0).0 == draw_rec(
                    self.display@,
                    s0.ram,
                    s0.i_reg,
                    xo,
                    yo,
                    n,
                    row,
                ).0,
                draw_rec(d0, s0.ram, s0.i_reg, xo, yo, n, 0).1 == (coll || draw_rec(
                    self.display@,
                    s0.ram,
                    s0.i_reg,
                    xo,
                    yo,
                    n,
                    row,
                ).1),
            decreases n - row,
        {
            proof {
                assert(row < sprite_rows_read(yo, n));
            }
            let sprite = self.ram[(self.i_reg + row as u16) as usize];
            let cy = yo + row;
            let ghost drs: Seq<bool> = self.display@;
            let ghost collrs: bool = coll;
            let mut col: u8 = 0;
            while col < 8 && xo + col < DISPLAY_WIDTH as u8
                invariant
                    self.display@.len() == DISPLAY_WIDTH * DISPLAY_HEIGHT,
                    xo < DISPLAY_WIDTH,
                    cy < DISPLAY_HEIGHT,
                    col <= 8,
                    self.ram@ == s0.ram,
                    self.keypad@ == s0.keypad,
                    self.stack@ == s0.stack,
                    self.pc == s0.pc,
                    self.i_reg == s0.i_reg,
                    self.v_reg@ == s0.v,
                    self.d_timer == s0.d_timer,
                    self.s_timer == s0.s_timer,
                    self.quirks.shift == s0.shift_quirk,
                    self.quirks.jump == s0.jump_quirk,
                    draw_row_rec(drs, sprite, xo, cy, 0).0 == draw_row_rec(
                        self.display@,
                        sprite,
                        xo,
                        cy,
                        col,
                    ).0,
                    (collrs || draw_row_rec(drs, sprite, xo, cy, 0).1) == (coll || draw_row_rec(
                        self.display@,
                        sprite,
                        xo,
                        cy,
                        col,
                    ).1),
                decreases 8 - col,
            {
                if sprite & (0x80u8 >> col) != 0 {
                    let idx: usize = (cy as usize) * DISPLAY_WIDTH + (xo as usize) + (col as usize);
                    let cur = self.display[idx];
                    if cur {
                        coll = true;
                    }
                    self.display[idx] = !cur;
                }
                col = col + 1;
            }
            proof {
                assert(draw_row_rec(self.display@, sprite, xo, cy, col).0 == self.display@);
                assert(draw_row_rec(drs, sprite, xo, cy, 0).0 == self.display@);
                assert(sprite == s0.ram[s0.i_reg + row]);
            }
            row = row + 1;
        }
        proof {
            assert(draw_rec(self.display@, s0.ram, s0.i_reg, xo, yo, n, row).0 == self.display@);
            assert(draw_rec(d0, s0.ram, s0.i_reg, xo, yo, n, 0).0 == self.display@);
        }
        let flag: u8 = if coll {
            1
        } else {
            0
        };
        self.v_reg[15] = flag;
        proof {
            assert(self@ =~= instr_post(s0, Instr::Draw { x, y, n }, 0));
        }
        None
    }

    /// Wait for a key press: scan the key lines in ascending order; store
    /// the first pressed line's index in VX, or, if none is pressed, step
    /// the program counter back so the instruction re-executes next cycle.
    fn op_wait_key(&mut self, x: u8)
        requires
            old(self).wf(),
            x < 16,
            old(self).pc >= 2,
        ensures
            final(self).wf(),
            final(self)@ == instr_post(old(self)@, Instr::WaitKey { x }, 0),
    {
        let mut k: u8 = 0;
        while k < KEY_COUNT as u8
            invariant
                old(self).wf(),
                x < 16,
                k <= KEY_COUNT,
                self@ == old(self)@,
                first_pressed_from(old(self)@.keypad, 0) == first_pressed_from(
                    old(self)@.keypad,
                    k,
                ),
            decreases KEY_COUNT - k,
        {
            if self.keypad[k as usize] {
                self.v_reg[x as usize] = k;
                proof {
                    assert(first_pressed_from(old(self)@.keypad, k) == Some(k));
                    assert(self@ =~= instr_post(old(self)@, Instr::WaitKey { x }, 0));
                }
                return ;
            }
            k = k + 1;
        }
        self.pc = self.pc - 2;
        proof {
            assert(first_pressed_from(old(self)@.keypad, 16) is None);
            assert(self@ =~= instr_post(old(self)@, Instr::WaitKey { x }, 0));
        }
    }

    /// Store V0..VX to consecutive memory cells at the index register; a
    /// cell beyond memory is a fault, reported before anything is written.
    fn op_store_regs(&mut self, x: u8) -> (r: Option<Fault>)
        requires
            old(self).wf(),
            x < 16,
        ensures
            final(self).wf(),
            match r {
                None => instr_fault(old(self)@, Instr::StoreRegs { x }) is None && final(self)@
                    == instr_post(old(self)@, Instr::StoreRegs { x }, 0),
                Some(f) => instr_fault(old(self)@, Instr::StoreRegs { x }) == Some(f)
                    && final(self)@ == old(self)@,
            },
    {
        if self.i_reg as usize + x as usize >= RAM_SIZE {
            return Some(Fault::OutOfBounds);
        }
        let base = self.i_reg as usize;
        let mut k: usize = 0;
        while k <= x as usize
            invariant
                old(self).wf(),
                x < 16,
                base == old(self)@.i_reg,
                base + x < RAM_SIZE,
                k <= x + 1,
                self.ram@.len() == RAM_SIZE,
                self.display@ == old(self)@.display,
                self.keypad@ == old(self)@.keypad,
                self.stack@ == old(self)@.stack,
                self.pc == old(self)@.pc,
                self.i_reg == old(self)@.i_reg,
                self.v_reg@ == old(self)@.v,
                self.d_timer == old(self)@.d_timer,
                self.s_timer == old(self)@.s_timer,
                self.quirks.shift == old(self)@.shift_quirk,
                self.quirks.jump == old(self)@.jump_quirk,
                forall|j: int|
                    0 <= j < RAM_SIZE ==> self.ram@[j] == (if base <= j < base + k {
                        old(self)@.v[j - base]
                    } else {
                        old(self)@.ram[j]
                    }),
            decreases x + 1 - k,
        {
            self.ram[base + k] = self.v_reg[k];
            k = k + 1;
        }
        proof {
            assert(self@ =~= instr_post(old(self)@, Instr::StoreRegs { x }, 0));
        }
        None
    }

    /// Load V0..VX from consecutive memory cells at the index register; a
    /// cell beyond memory is a fault, reported before anything is read.
    fn op_load_regs(&mut self, x: u8) -> (r: Option<Fault>)
        requires
            old(self).wf(),
            x < 16,
        ensures
            final(self).wf(),
            match r {
                None => instr_fault(old(self)@, Instr::LoadRegs { x }) is None && final(self)@
                    == instr_post(old(self)@, Instr::LoadRegs { x }, 0),
                Some(f) => instr_fault(old(self)@, Instr::LoadRegs { x }) == Some(f)
                    && final(self)@ == old(self)@,
            },
    {
        if self.i_reg as usize + x as usize >= RAM_SIZE {
            return Some(Fault::OutOfBounds);
        }
        let base = self.i_reg as usize;
        let mut k: usize = 0;
        while k <= x as usize
            invariant
                old(self).wf(),
                x < 16,
                base == old(self)@.i_reg,
                base + x < RAM_SIZE,
                k <= x + 1,
                self.v_reg@.len() == REG_COUNT,
                self.display@ == old(self)@.display,
                self.keypad@ == old(self)@.keypad,
                self.stack@ == old(self)@.stack,
                self.pc == old(self)@.pc,
                self.i_reg == old(self)@.i_reg,
                self.ram@ == old(self)@.ram,
                self.d_timer == old(self)@.d_timer,
                self.s_timer == old(self)@.s_timer,
                self.quirks.shift == old(self)@.shift_quirk,
                self.quirks.jump == old(self)@.jump_quirk,
                forall|j: int|
                    0 <= j < REG_COUNT ==> self.v_reg@[j] == (if 0 <= j < k {
                        old(self)@.ram[base + j]
                    } else {
                        old(self)@.v[j]
                    }),
            decreases x + 1 - k,
        {
            self.v_reg[k] = self.ram[base + k];
            k = k + 1;
        }
        proof {
            assert(self@ =~= instr_post(old(self)@, Instr::LoadRegs { x }, 0));
        }
        None
    }

    /// Execute one already-fetched instruction word. The program counter
    /// has advanced past the word, so it lies between 2 and the end of the
    /// address space. A faulting instruction reports its fault and leaves
    /// the state untouched; an unknown word is reported and changes
    /// nothing further.
    pub fn execute(&mut self, op: u16) -> (r: Result<Step, Fault>)
        requires
            old(self).wf(),
            2 <= old(self).pc <= RAM_SIZE,
        ensures
            final(self).wf(),
            match r {
                Ok(step) => instr_fault(old(self)@, spec_decode(op)) is None && step == (
                if spec_decode(op) is Unknown {
                    Step::Unknown(op)
                } else {
                    Step::Normal
                }) && (if spec_decode(op) is Random {
                    exists|rb: u8|
                        final(self)@ == instr_post(old(self)@, spec_decode(op), rb)
                } else {
                    final(self)@ == instr_post(old(self)@, spec_decode(op), 0)
                }),
                Err(f) => instr_fault(old(self)@, spec_decode(op)) == Some(f) && final(self)@
                    == old(self)@,
            },
    {
        let i = decode(op);
        match i {
            Instr::ClearScreen => {
                self.display = vec![false; DISPLAY_WIDTH * DISPLAY_HEIGHT];
                proof {
                    assert(self.display@ =~= blank_display());
                    assert(self@ =~= instr_post(old(self)@, Instr::ClearScreen, 0));
                }
                Ok(Step::Normal)
            },
            Instr::Ret => {
                if self.stack.len() == 0 {
                    Err(Fault::StackUnderflow)
                } else {
                    self.pc = self.stack.pop();
                    proof {
                        assert(self@ =~= instr_post(old(self)@, Instr::Ret, 0));
                    }
                    Ok(Step::Normal)
                }
            },
            Instr::Jump { nnn } => {
                self.pc = nnn;
                Ok(Step::Normal)
            },
            Instr::Call { nnn } => {
                if self.stack.len() >= STACK_CAPACITY {
                    Err(Fault::StackOverflow)
                } else {
                    self.stack.push(self.pc);
                    self.pc = nnn;
                    proof {
                        assert(self@ =~= instr_post(old(self)@, Instr::Call { nnn }, 0));
                    }
                    Ok(Step::Normal)
                }
            },
            Instr::SkipEqImm { x, nn } => {
                if self.v_reg[x as usize] == nn {
                    self.pc = self.pc + 2;
                }
                Ok(Step::Normal)
            },
            Instr::SkipNeImm { x, nn } => {
                if self.v_reg[x as usize] != nn {
                    self.pc = self.pc + 2;
                }
                Ok(Step::Normal)
            },
            Instr::SkipEqReg { x, y } => {
                if self.v_reg[x as usize] == self.v_reg[y as usize] {
                    self.pc = self.pc + 2;
                }
                Ok(Step::Normal)
            },
            Instr::SkipNeReg { x, y } => {
                if self.v_reg[x as usize] != self.v_reg[y as usize] {
                    self.pc = self.pc + 2;
                }
                Ok(Step::Normal)
            },
            Instr::SetImm { x, nn } => {
                self.v_reg[x as usize] = nn;
                Ok(Step::Normal)
            },
            Instr::AddImm { x, nn } => {
                let vx = self.v_reg[x as usize];
                let sum: u16 = vx as u16 + nn as u16;
                self.v_reg[x as usize] = if sum > 255 {
                    (sum - 256) as u8
                } else {
                    sum as u8
                };
                proof {
                    assert(self@ =~= instr_post(old(self)@, Instr::AddImm { x, nn }, 0));
                }
                Ok(Step::Normal)
            },
            Instr::Copy { x, y } => {
                let vy = self.v_reg[y as usize];
                self.v_reg[x as usize] = vy;
                Ok(Step::Normal)
            },
            Instr::Or { x, y } => {
                let vx = self.v_reg[x as usize];
                let vy = self.v_reg[y as usize];
                self.v_reg[x as usize] = vx | vy;
                Ok(Step::Normal)
            },
            Instr::And { x, y } => {
                let vx = self.v_reg[x as usize];
                let vy = self.v_reg[y as usize];
                self.v_reg[x as usize] = vx & vy;
                Ok(Step::Normal)
            },
            Instr::Xor { x, y } => {
                let vx = self.v_reg[x as usize];
                let vy = self.v_reg[y as usize];
                self.v_reg[x as usize] = vx ^ vy;
                Ok(Step::Normal)
            },
            Instr::AddReg { x, y } => {
                let vx = self.v_reg[x as usize];
                let vy = self.v_reg[y as usize];
                let sum: u16 = vx as u16 + vy as u16;
                self.v_reg[x as usize] = if sum > 255 {
                    (sum - 256) as u8
                } else {
                    sum as u8
                };
                self.v_reg[15] = if sum > 255 {
                    1
                } else {
                    0
                };
                proof {
                    assert(self@ =~= instr_post(old(self)@, Instr::AddReg { x, y }, 0));
                }
                Ok(Step::Normal)
            },
            Instr::SubReg { x, y } => {
                let vx = self.v_reg[x as usize];
                let vy = self.v_reg[y as usize];
                self.v_reg[x as usize] = if vx >= vy {
                    vx - vy
                } else {
                    (vx as u16 + 256 - vy as u16) as u8
                };
                self.v_reg[15] = if vx >= vy {
                    1
                } else {
                    0
                };
                proof {
                    assert(self@ =~= instr_post(old(self)@, Instr::SubReg { x, y }, 0));
                }
                Ok(Step::Normal)
            },
            Instr::SubnReg { x, y } => {
                let vx = self.v_reg[x as usize];
                let vy = self.v_reg[y as usize];
                self.v_reg[x as usize] = if vy >= vx {
                    vy - vx
                } else {
                    (vy as u16 + 256 - vx as u16) as u8
                };
                self.v_reg[15] = if vy >= vx {
                    1
                } else {
                    0
                };
                proof {
                    assert(self@ =~= instr_post(old(self)@, Instr::SubnReg { x, y }, 0));
                }
                Ok(Step::Normal)
            },
            Instr::ShiftRight { x, y } => {
                if self.quirks.shift {
                    let vy = self.v_reg[y as usize];
                    self.v_reg[x as usize] = vy;
                }
                let vx = self.v_reg[x as usize];
                self.v_reg[15] = vx & 1;
                let vx2 = self.v_reg[x as usize];
                self.v_reg[x as usize] = vx2 >> 1u8;
                proof {
                    assert(self@ =~= instr_post(old(self)@, Instr::ShiftRight { x, y }, 0));
                }
                Ok(Step::Normal)
            },
            Instr::ShiftLeft { x, y } => {
                if self.quirks.shift {
                    let vy = self.v_reg[y as usize];
                    self.v_reg[x as usize] = vy;
                }
                let vx = self.v_reg[x as usize];
                self.v_reg[15] = (vx >> 7u8) & 1;
                let vx2 = self.v_reg[x as usize];
                self.v_reg[x as usize] = vx2 << 1u8;
                proof {
                    assert(self@ =~= instr_post(old(self)@, Instr::ShiftLeft { x, y }, 0));
                }
                Ok(Step::Normal)
            },
            Instr::LoadIndex { nnn } => {
                self.i_reg = nnn;
                Ok(Step::Normal)
            },
            Instr::JumpOffset { x, nnn } => {
                let off = if self.quirks.jump {
                    self.v_reg[x as usize]
                } else {
                    self.v_reg[0]
                };
                self.pc = off as u16 + nnn;
                proof {
                    assert(self@ =~= instr_post(old(self)@, Instr::JumpOffset { x, nnn }, 0));
                }
                Ok(Step::Normal)
            },
            Instr::Random { x, nn } => {
                let rb = random_byte();
                self.v_reg[x as usize] = rb & nn;
                proof {
                    assert(exists|rb2: u8|
                        self@ == instr_post(old(self)@, spec_decode(op), rb2)) by {
                        assert(self@ =~= instr_post(old(self)@, Instr::Random { x, nn }, rb));
                    }
                }
                Ok(Step::Normal)
            },
            Instr::Draw { x, y, n } => {
                match self.op_draw(x, y, n) {
                    None => Ok(Step::Normal),
                    Some(f) => Err(f),
                }
            },
            Instr::SkipKey { x } => {
                let vx = self.v_reg[x as usize];
                if vx >= KEY_COUNT as u8 {
                    Err(Fault::OutOfBounds)
                } else {
                    if self.keypad[vx as usize] {
                        self.pc = self.pc + 2;
                    }
                    Ok(Step::Normal)
                }
            },
            Instr::SkipNoKey { x } => {
                let vx = self.v_reg[x as usize];
                if vx >= KEY_COUNT as u8 {
                    Err(Fault::OutOfBounds)
                } else {
                    if !self.keypad[vx as usize] {
                        self.pc = self.pc + 2;
                    }
                    Ok(Step::Normal)
                }
            },
            Instr::GetDelay { x } => {
                let t = self.d_timer;
                self.v_reg[x as usize] = t;
                Ok(Step::Normal)
            },
            Instr::SetDelay { x } => {
                self.d_timer = self.v_reg[x as usize];
                Ok(Step::Normal)
            },
            Instr::SetSound { x } => {
                self.s_timer = self.v_reg[x as usize];
                Ok(Step::Normal)
            },
            Instr::AddIndex { x } => {
                let vx = self.v_reg[x as usize];
                let sum: u32 = self.i_reg as u32 + vx as u32;
                let wrapped: u16 = if sum > 65535 {
                    (sum - 65536) as u16
                } else {
                    sum as u16
                };
                self.i_reg = wrapped;
                self.v_reg[15] = if sum > 65535 && wrapped > 0xFFF {
                    1
                } else {
                    0
                };
                proof {
                    assert(self@ =~= instr_post(old(self)@, Instr::AddIndex { x }, 0));
                }
                Ok(Step::Normal)
            },
            Instr::WaitKey { x } => {
                self.op_wait_key(x);
                Ok(Step::Normal)
            },
            Instr::FontAddr { x } => {
                let vx = self.v_reg[x as usize];
                self.i_reg = FONT_ADDR as u16 + (vx as u16) * 5;
                proof {
                    assert(self@ =~= instr_post(old(self)@, Instr::FontAddr { x }, 0));
                }
                Ok(Step::Normal)
            },
            Instr::StoreBcd { x } => {
                if self.i_reg >= (RAM_SIZE as u16) - 2 {
                    Err(Fault::OutOfBounds)
                } else {
                    let num = self.v_reg[x as usize];
                    let base = self.i_reg as usize;
                    self.ram[base] = num % 10;
                    self.ram[base + 1] = (num / 10) % 10;
                    self.ram[base + 2] = num / 100;
                    proof {
                        assert(self@ =~= instr_post(old(self)@, Instr::StoreBcd { x }, 0));
                    }
                    Ok(Step::Normal)
                }
            },
            Instr::StoreRegs { x } => {
                match self.op_store_regs(x) {
                    None => Ok(Step::Normal),
                    Some(f) => Err(f),
                }
            },
            Instr::LoadRegs { x } => {
                match self.op_load_regs(x) {
                    None => Ok(Step::Normal),
                    Some(f) => Err(f),
                }
            },
            Instr::Unknown => Ok(Step::Unknown(op)),
        }
    }

    /// One machine cycle: fetch the instruction word at the program
    /// counter and execute it. A fetch that would read beyond memory is a
    /// fault that leaves the state untouched; an instruction fault leaves
    /// the state as it was right after the fetch.
    pub fn cycle(&mut self) -> (r: Result<Step, Fault>)
        requires
            old(self).wf(),
        ensures
            final(self).wf(),
            match r {
                Ok(step) => cycle_fault(old(self)@) is None && step == cycle_step(old(self)@)
                    && cycle_ok_post(old(self)@, final(self)@),
                Err(f) => cycle_fault(old(self)@) == Some(f) && (if old(self)@.pc + 1 >= RAM_SIZE {
                    final(self)@ == old(self)@
                } else {
                    final(self)@ == after_fetch(old(self)@)
                }),
            },
    {
        if self.pc >= (RAM_SIZE as u16) - 1 {
            return Err(Fault::OutOfBounds);
        }
        let w = self.fetch();
        let ghost mid: Chip8View = self@;
        let r = self.execute(w);
        proof {
            assert(mid == after_fetch(old(self)@));
            assert(w == fetch_word(old(self)@));
            if r is Ok && spec_decode(w) is Random {
                let rb = choose|rb: u8| self@ == instr_post(mid, spec_decode(w), rb);
                assert(self@ == instr_post(after_fetch(old(self)@), spec_decode(
                    fetch_word(old(self)@),
                ), rb));
            }
        }
        r
    }

    /// Assert or clear one key line.
    pub fn set_key(&mut self, key: u8, pressed: bool)
        requires
            old(self).wf(),
            key < KEY_COUNT,
        ensures
            final(self).wf(),
            final(self)@ == (Chip8View {
                keypad: old(self)@.keypad.update(key as int, pressed),
                ..old(self)@
            }),
    {
        self.keypad[key as usize] = pressed;
    }
}

} // verus!
