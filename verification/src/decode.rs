//! Splitting a 16-bit instruction word into its nibble fields and
//! recognising the instruction it selects.
//!
//! An instruction word is split into four 4-bit fields; dispatch is by
//! pattern over those nibbles. The derived operands are X and Y (register
//! selectors), N (4-bit literal), NN (8-bit immediate, the low byte) and
//! NNN (12-bit address, the low three nibbles). A word that matches no
//! pattern decodes to `Unknown`.

use vstd::prelude::*;

verus! {

/// A decoded instruction. Register selectors are always below 16 and the
/// address field below 0x1000 (see `wf`).
#[derive(Clone, Copy, Debug, PartialEq, Eq, Structural)]
pub enum Instr {
    /// 00E0: set every display cell to false.
    ClearScreen,
    /// 00EE: pop a return address into the program counter.
    Ret,
    /// 1NNN: program counter := NNN.
    Jump { nnn: u16 },
    /// 2NNN: push the program counter, then jump to NNN.
    Call { nnn: u16 },
    /// 3XNN: skip the next instruction if VX == NN.
    SkipEqImm { x: u8, nn: u8 },
    /// 4XNN: skip the next instruction if VX != NN.
    SkipNeImm { x: u8, nn: u8 },
    /// 5XY0: skip the next instruction if VX == VY.
    SkipEqReg { x: u8, y: u8 },
    /// 9XY0: skip the next instruction if VX != VY.
    SkipNeReg { x: u8, y: u8 },
    /// 6XNN: VX := NN.
    SetImm { x: u8, nn: u8 },
    /// 7XNN: VX := VX + NN with wraparound; VF untouched.
    AddImm { x: u8, nn: u8 },
    /// 8XY0: VX := VY.
    Copy { x: u8, y: u8 },
    /// 8XY1: VX := VX | VY.
    Or { x: u8, y: u8 },
    /// 8XY2: VX := VX & VY.
    And { x: u8, y: u8 },
    /// 8XY3: VX := VX ^ VY.
    Xor { x: u8, y: u8 },
    /// 8XY4: VX := VX + VY with wraparound; VF := carry.
    AddReg { x: u8, y: u8 },
    /// 8XY5: VX := VX - VY with wraparound; VF := 1 if no borrow.
    SubReg { x: u8, y: u8 },
    /// 8XY7: VX := VY - VX with wraparound; VF := 1 if no borrow.
    SubnReg { x: u8, y: u8 },
    /// 8XY6: shift right by one; VF := the bit shifted out.
    ShiftRight { x: u8, y: u8 },
    /// 8XYE: shift left by one; VF := the bit shifted out.
    ShiftLeft { x: u8, y: u8 },
    /// ANNN: index register := NNN.
    LoadIndex { nnn: u16 },
    /// BNNN: jump to NNN plus an offset register (V0, or VX under the
    /// jump quirk).
    JumpOffset { x: u8, nnn: u16 },
    /// CXNN: VX := random byte & NN.
    Random { x: u8, nn: u8 },
    /// DXYN: draw an N-row sprite at (VX mod 64, VY mod 32).
    Draw { x: u8, y: u8, n: u8 },
    /// EX9E: skip the next instruction if the key selected by VX is down.
    SkipKey { x: u8 },
    /// EXA1: skip the next instruction if the key selected by VX is up.
    SkipNoKey { x: u8 },
    /// FX07: VX := delay timer.
    GetDelay { x: u8 },
    /// FX15: delay timer := VX.
    SetDelay { x: u8 },
    /// FX18: sound timer := VX.
    SetSound { x: u8 },
    /// FX1E: index register += VX with 16-bit wraparound.
    AddIndex { x: u8 },
    /// FX0A: wait for a key press, re-executing until one is observed.
    WaitKey { x: u8 },
    /// FX29: index register := glyph address of the digit in VX.
    FontAddr { x: u8 },
    /// FX33: store the decimal digits of VX at the index register.
    StoreBcd { x: u8 },
    /// FX55: store V0..VX to memory at the index register.
    StoreRegs { x: u8 },
    /// FX65: load V0..VX from memory at the index register.
    LoadRegs { x: u8 },
    /// No pattern matched: reported and skipped.
    Unknown,
}

impl Instr {
    /// Every field a decoder can produce is in range: register selectors
    /// and the 4-bit literal below 16, the address below 0x1000.
    pub open spec fn wf(self) -> bool {
        match self {
            Instr::ClearScreen => true,
            Instr::Ret => true,
            Instr::Jump { nnn } => nnn < 0x1000,
            Instr::Call { nnn } => nnn < 0x1000,
            Instr::SkipEqImm { x, nn } => x < 16,
            Instr::SkipNeImm { x, nn } => x < 16,
            Instr::SkipEqReg { x, y } => x < 16 && y < 16,
            Instr::SkipNeReg { x, y } => x < 16 && y < 16,
            Instr::SetImm { x, nn } => x < 16,
            Instr::AddImm { x, nn } => x < 16,
            Instr::Copy { x, y } => x < 16 && y < 16,
            Instr::Or { x, y } => x < 16 && y < 16,
            Instr::And { x, y } => x < 16 && y < 16,
            Instr::Xor { x, y } => x < 16 && y < 16,
            Instr::AddReg { x, y } => x < 16 && y < 16,
            Instr::SubReg { x, y } => x < 16 && y < 16,
            Instr::SubnReg { x, y } => x < 16 && y < 16,
            Instr::ShiftRight { x, y } => x < 16 && y < 16,
            Instr::ShiftLeft { x, y } => x < 16 && y < 16,
            Instr::LoadIndex { nnn } => nnn < 0x1000,
            Instr::JumpOffset { x, nnn } => x < 16 && nnn < 0x1000,
            Instr::Random { x, nn } => x < 16,
            Instr::Draw { x, y, n } => x < 16 && y < 16 && n < 16,
            Instr::SkipKey { x } => x < 16,
            Instr::SkipNoKey { x } => x < 16,
            Instr::GetDelay { x } => x < 16,
            Instr::SetDelay { x } => x < 16,
            Instr::SetSound { x } => x < 16,
            Instr::AddIndex { x } => x < 16,
            Instr::WaitKey { x } => x < 16,
            Instr::FontAddr { x } => x < 16,
            Instr::StoreBcd { x } => x < 16,
            Instr::StoreRegs { x } => x < 16,
            Instr::LoadRegs { x } => x < 16,
            Instr::Unknown => true,
        }
    }
}

/// The meaning of a 16-bit instruction word, by pattern over its four
/// nibbles.
pub open spec fn spec_decode(op: u16) -> Instr {
    let d1 = (op >> 12) & 0xF;
    let d2 = (op >> 8) & 0xF;
    let d3 = (op >> 4) & 0xF;
    let d4 = op & 0xF;
    let x = d2 as u8;
    let y = d3 as u8;
    let n = d4 as u8;
    let nn = (op & 0xFF) as u8;
    let nnn = op & 0xFFF;
    match (d1, d2, d3, d4) {
        (0, 0, 0xE, 0) => Instr::ClearScreen,
        (0, 0, 0xE, 0xE) => Instr::Ret,
        (1, _, _, _) => Instr::Jump { nnn },
        (2, _, _, _) => Instr::Call { nnn },
        (3, _, _, _) => Instr::SkipEqImm { x, nn },
        (4, _, _, _) => Instr::SkipNeImm { x, nn },
        (5, _, _, 0) => Instr::SkipEqReg { x, y },
        (9, _, _, 0) => Instr::SkipNeReg { x, y },
        (6, _, _, _) => Instr::SetImm { x, nn },
        (7, _, _, _) => Instr::AddImm { x, nn },
        (8, _, _, 0) => Instr::Copy { x, y },
        (8, _, _, 1) => Instr::Or { x, y },
        (8, _, _, 2) => Instr::And { x, y },
        (8, _, _, 3) => Instr::Xor { x, y },
        (8, _, _, 4) => Instr::AddReg { x, y },
        (8, _, _, 5) => Instr::SubReg { x, y },
        (8, _, _, 7) => Instr::SubnReg { x, y },
        (8, _, _, 6) => Instr::ShiftRight { x, y },
        (8, _, _, 0xE) => Instr::ShiftLeft { x, y },
        (0xA, _, _, _) => Instr::LoadIndex { nnn },
        (0xB, _, _, _) => Instr::JumpOffset { x, nnn },
        (0xC, _, _, _) => Instr::Random { x, nn },
        (0xD, _, _, _) => Instr::Draw { x, y, n },
        (0xE, _, 9, 0xE) => Instr::SkipKey { x },
        (0xE, _, 0xA, 1) => Instr::SkipNoKey { x },
        (0xF, _, 0, 7) => Instr::GetDelay { x },
        (0xF, _, 1, 5) => Instr::SetDelay { x },
        (0xF, _, 1, 8) => Instr::SetSound { x },
        (0xF, _, 1, 0xE) => Instr::AddIndex { x },
        (0xF, _, 0, 0xA) => Instr::WaitKey { x },
        (0xF, _, 2, 9) => Instr::FontAddr { x },
        (0xF, _, 3, 3) => Instr::StoreBcd { x },
        (0xF, _, 5, 5) => Instr::StoreRegs { x },
        (0xF, _, 6, 5) => Instr::LoadRegs { x },
        _ => Instr::Unknown,
    }
}

/// Whatever word is decoded, the fields of the result are in range.
pub proof fn lemma_decode_wf(op: u16)
    ensures
        spec_decode(op).wf(),
{
    assert((op >> 8) & 0xF < 16) by (bit_vector);
    assert((op >> 4) & 0xF < 16) by (bit_vector);
    assert(op & 0xF < 16) by (bit_vector);
    assert(op & 0xFFF < 0x1000) by (bit_vector);
}

/// Split an instruction word into its nibble fields and recognise the
/// instruction, exactly as `spec_decode` describes.
pub fn decode(op: u16) -> (i: Instr)
    ensures
        i == spec_decode(op),
        i.wf(),
{
    proof {
        lemma_decode_wf(op);
    }
    let d1 = (op >> 12) & 0xF;
    let d2 = (op >> 8) & 0xF;
    let d3 = (op >> 4) & 0xF;
    let d4 = op & 0xF;
    let x = d2 as u8;
    let y = d3 as u8;
    let n = d4 as u8;
    let nn = (op & 0xFF) as u8;
    let nnn = op & 0xFFF;
    match (d1, d2, d3, d4) {
        (0, 0, 0xE, 0) => Instr::ClearScreen,
        (0, 0, 0xE, 0xE) => Instr::Ret,
        (1, _, _, _) => Instr::Jump { nnn },
        (2, _, _, _) => Instr::Call { nnn },
        (3, _, _, _) => Instr::SkipEqImm { x, nn },
        (4, _, _, _) => Instr::SkipNeImm { x, nn },
        (5, _, _, 0) => Instr::SkipEqReg { x, y },
        (9, _, _, 0) => Instr::SkipNeReg { x, y },
        (6, _, _, _) => Instr::SetImm { x, nn },
        (7, _, _, _) => Instr::AddImm { x, nn },
        (8, _, _, 0) => Instr::Copy { x, y },
        (8, _, _, 1) => Instr::Or { x, y },
        (8, _, _, 2) => Instr::And { x, y },
        (8, _, _, 3) => Instr::Xor { x, y },
        (8, _, _, 4) => Instr::AddReg { x, y },
        (8, _, _, 5) => Instr::SubReg { x, y },
        (8, _, _, 7) => Instr::SubnReg { x, y },
        (8, _, _, 6) => Instr::ShiftRight { x, y },
        (8, _, _, 0xE) => Instr::ShiftLeft { x, y },
        (0xA, _, _, _) => Instr::LoadIndex { nnn },
        (0xB, _, _, _) => Instr::JumpOffset { x, nnn },
        (0xC, _, _, _) => Instr::Random { x, nn },
        (0xD, _, _, _) => Instr::Draw { x, y, n },
        (0xE, _, 9, 0xE) => Instr::SkipKey { x },
        (0xE, _, 0xA, 1) => Instr::SkipNoKey { x },
        (0xF, _, 0, 7) => Instr::GetDelay { x },
        (0xF, _, 1, 5) => Instr::SetDelay { x },
        (0xF, _, 1, 8) => Instr::SetSound { x },
        (0xF, _, 1, 0xE) => Instr::AddIndex { x },
        (0xF, _, 0, 0xA) => Instr::WaitKey { x },
        (0xF, _, 2, 9) => Instr::FontAddr { x },
        (0xF, _, 3, 3) => Instr::StoreBcd { x },
        (0xF, _, 5, 5) => Instr::StoreRegs { x },
        (0xF, _, 6, 5) => Instr::LoadRegs { x },
        _ => Instr::Unknown,
    }
}

} // verus!
