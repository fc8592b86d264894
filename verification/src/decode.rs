//! The decoder: a pure map from a raw 16-bit instruction word (plus the
//! read-only register context some opcodes embed) to a tagged opcode
//! descriptor. Decoding never mutates the machine.

use vstd::prelude::*;
use crate::machine::{Machine, MState, NUM_REGS};

verus! {

/// Where a plain 8-bit load lands: a general register, or one of the timers.
#[derive(Clone, Copy, Debug, PartialEq, Eq, Structural)]
pub enum LdTarget {
    Reg(u8),
    DelayTimer,
    SoundTimer,
}

/// One decoded instruction, tagged by operation kind and carrying its
/// operands. Comparison opcodes carry the two compared values; plain loads
/// carry a destination tag and the value; the rest carry register indices,
/// an address or an immediate, as the instruction encodes them.
#[derive(Clone, Copy, Debug, PartialEq, Eq, Structural)]
pub enum Opcode {
    /// 00E0: clear the display.
    Cls,
    /// 00EE: return from a subroutine.
    Ret,
    /// 1NNN: jump to NNN.
    Jmp(u16),
    /// BNNN: jump to NNN + V0.
    JmpV0(u16),
    /// 2NNN: call the subroutine at NNN.
    Call(u16),
    /// 3XKK / 5XY0, with values resolved: skip next instruction if equal.
    Se(u8, u8),
    /// 4XKK / 9XY0, with values resolved: skip next instruction if not equal.
    Sne(u8, u8),
    /// 6XKK / 8XY0 / FX07 / FX15 / FX18: load a resolved 8-bit value into a target.
    Ld(LdTarget, u8),
    /// ANNN: set the index register to NNN.
    Ldi(u16),
    /// FX65: read registers V0..=VX from memory at I.
    LdRegs(u8),
    /// FX55: store registers V0..=VX to memory at I.
    StRegs(u8),
    /// FX0A: wait for a key press, store the key index in VX.
    LdKey(u8),
    /// FX29: point the index register at the font glyph for VX.
    LdFont(u8),
    /// FX33: store the three decimal digits of VX at I, I+1, I+2.
    LdBcd(u8),
    /// 8XY4: VX += VY, VF = carry.
    Add(u8, u8),
    /// 7XKK: VX += KK, no flag.
    AddImm(u8, u8),
    /// FX1E: I += VX, no flag.
    AddI(u8),
    /// 8XY5: VX -= VY, VF = 1 iff no borrow.
    Sub(u8, u8),
    /// 8XY7: VX = VY - VX, VF = 1 iff no borrow.
    SubN(u8, u8),
    /// 8XY1: VX |= VY.
    Or(u8, u8),
    /// 8XY2: VX &= VY.
    And(u8, u8),
    /// 8XY3: VX ^= VY.
    Xor(u8, u8),
    /// 8XY6: VF = low bit of VX, VX >>= 1.
    Shr(u8),
    /// 8XYE: VF = high bit of VX, VX <<= 1.
    Shl(u8),
    /// CXKK: VX = random byte AND KK.
    Rnd(u8, u8),
    /// DXYN: draw the N-byte sprite at memory I at position (VX, VY).
    Drw(u8, u8, u8),
    /// EX9E: skip next instruction if the key indexed by VX is down.
    Skp(u8),
    /// EXA1: skip next instruction if the key indexed by VX is not down.
    Sknp(u8),
    /// No known pattern matched; carries the raw word for diagnostics.
    Unknown(u16),
}

/// The second nibble of a word: the register index `x`.
pub open spec fn spec_reg_x(w: u16) -> u8 {
    ((w >> 8) & 0xf) as u8
}

/// The third nibble of a word: the register index `y`.
pub open spec fn spec_reg_y(w: u16) -> u8 {
    ((w >> 4) & 0xf) as u8
}

/// The low nibble of a word: a 4-bit immediate `n`.
pub open spec fn spec_nibble(w: u16) -> u8 {
    (w & 0xf) as u8
}

/// The low byte of a word: an 8-bit immediate `kk`.
pub open spec fn spec_byte(w: u16) -> u8 {
    (w & 0xff) as u8
}

/// The low 12 bits of a word: an address `nnn`.
pub open spec fn spec_addr(w: u16) -> u16 {
    w & 0xfff
}

/// The extracted fields stay inside their ranges.
pub proof fn lemma_field_bounds(w: u16)
    ensures
        spec_reg_x(w) < 16,
        spec_reg_y(w) < 16,
        spec_nibble(w) < 16,
        spec_addr(w) < 0x1000,
{
    assert((w >> 8) & 0xf < 16 && (w >> 4) & 0xf < 16 && w & 0xf < 16 && (w & 0xfff) < 0x1000)
        by (bit_vector);
}

/// Every operand a descriptor carries is in range: register indices below 16,
/// the V0-relative jump target below 0x1000, a sprite height below 16.
pub open spec fn op_valid(op: Opcode) -> bool {
    match op {
        Opcode::JmpV0(nnn) => nnn < 0x1000,
        Opcode::Ld(t, _v) => match t {
            LdTarget::Reg(x) => x < 16,
            _ => true,
        },
        Opcode::LdRegs(x) => x < 16,
        Opcode::StRegs(x) => x < 16,
        Opcode::LdKey(x) => x < 16,
        Opcode::LdFont(x) => x < 16,
        Opcode::LdBcd(x) => x < 16,
        Opcode::Add(x, y) => x < 16 && y < 16,
        Opcode::AddImm(x, _kk) => x < 16,
        Opcode::AddI(x) => x < 16,
        Opcode::Sub(x, y) => x < 16 && y < 16,
        Opcode::SubN(x, y) => x < 16 && y < 16,
        Opcode::Or(x, y) => x < 16 && y < 16,
        Opcode::And(x, y) => x < 16 && y < 16,
        Opcode::Xor(x, y) => x < 16 && y < 16,
        Opcode::Shr(x) => x < 16,
        Opcode::Shl(x) => x < 16,
        Opcode::Rnd(x, _kk) => x < 16,
        Opcode::Drw(x, y, n) => x < 16 && y < 16 && n < 16,
        Opcode::Skp(x) => x < 16,
        Opcode::Sknp(x) => x < 16,
        _ => true,
    }
}

/// What the decoder produces for word `w` against register context `s`: the
/// top nibble selects the opcode family; where that is ambiguous a secondary
/// nibble or the low byte discriminates; no known pattern gives `Unknown`.
pub open spec fn spec_decode(w: u16, s: MState) -> Opcode {
    let x = spec_reg_x(w);
    let y = spec_reg_y(w);
    let n = spec_nibble(w);
    let kk = spec_byte(w);
    let nnn = spec_addr(w);
    match w & 0xf000 {
        0x0000 => if w == 0x00e0 {
            Opcode::Cls
        } else if w == 0x00ee {
            Opcode::Ret
        } else {
            Opcode::Unknown(w)
        },
        0x1000 => Opcode::Jmp(nnn),
        0x2000 => Opcode::Call(nnn),
        0x3000 => Opcode::Se(s.reg[x as int], kk),
        0x4000 => Opcode::Sne(s.reg[x as int], kk),
        0x5000 => Opcode::Se(s.reg[x as int], s.reg[y as int]),
        0x6000 => Opcode::Ld(LdTarget::Reg(x), kk),
        0x7000 => Opcode::AddImm(x, kk),
        0x8000 => match w & 0xf {
            0x0 => Opcode::Ld(LdTarget::Reg(x), s.reg[y as int]),
            0x1 => Opcode::Or(x, y),
            0x2 => Opcode::And(x, y),
            0x3 => Opcode::Xor(x, y),
            0x4 => Opcode::Add(x, y),
            0x5 => Opcode::Sub(x, y),
            0x6 => Opcode::Shr(x),
            0x7 => Opcode::SubN(x, y),
            0xe => Opcode::Shl(x),
            _ => Opcode::Unknown(w),
        },
        0x9000 => Opcode::Sne(s.reg[x as int], s.reg[y as int]),
        0xa000 => Opcode::Ldi(nnn),
        0xb000 => Opcode::JmpV0(nnn),
        0xc000 => Opcode::Rnd(x, kk),
        0xd000 => Opcode::Drw(x, y, n),
        0xe000 => match w & 0xff {
            0x9e => Opcode::Skp(x),
            0xa1 => Opcode::Sknp(x),
            _ => Opcode::Unknown(w),
        },
        0xf000 => match w & 0xff {
            0x07 => Opcode::Ld(LdTarget::Reg(x), s.dt),
            0x0a => Opcode::LdKey(x),
            0x15 => Opcode::Ld(LdTarget::DelayTimer, s.reg[x as int]),
            0x18 => Opcode::Ld(LdTarget::SoundTimer, s.reg[x as int]),
            0x1e => Opcode::AddI(x),
            0x29 => Opcode::LdFont(x),
            0x33 => Opcode::LdBcd(x),
            0x55 => Opcode::StRegs(x),
            0x65 => Opcode::LdRegs(x),
            _ => Opcode::Unknown(w),
        },
        _ => Opcode::Unknown(w),
    }
}

/// Extracts the register index `x` from the second nibble.
pub fn reg_x(w: u16) -> (x: u8)
    ensures
        x == spec_reg_x(w),
        x < 16,
{
    proof {
        lemma_field_bounds(w);
    }
    ((w >> 8) & 0xf) as u8
}

/// Extracts the register index `y` from the third nibble.
pub fn reg_y(w: u16) -> (y: u8)
    ensures
        y == spec_reg_y(w),
        y < 16,
{
    proof {
        lemma_field_bounds(w);
    }
    ((w >> 4) & 0xf) as u8
}

/// Extracts the 4-bit immediate from the low nibble.
pub fn nibble(w: u16) -> (n: u8)
    ensures
        n == spec_nibble(w),
        n < 16,
{
    proof {
        lemma_field_bounds(w);
    }
    (w & 0xf) as u8
}

/// Extracts the 8-bit immediate from the low byte.
pub fn low_byte(w: u16) -> (kk: u8)
    ensures
        kk == spec_byte(w),
{
    (w & 0xff) as u8
}

/// Extracts the 12-bit address from the low three nibbles.
pub fn addr(w: u16) -> (nnn: u16)
    ensures
        nnn == spec_addr(w),
        nnn < 0x1000,
{
    proof {
        lemma_field_bounds(w);
    }
    w & 0xfff
}

/// Decodes the instruction word `w` against the machine's current register
/// file and delay timer, which some opcodes embed as operands. Produces
/// `Unknown` for a word no pattern matches: a reportable decode failure, not
/// a crash.
pub fn decode(w: u16, m: &Machine) -> (op: Opcode)
    requires
        m.wf(),
    ensures
        op == spec_decode(w, m@),
        op_valid(op),
{
    proof {
        lemma_field_bounds(w);
        assert(m@.reg.len() == NUM_REGS);
    }
    let x = reg_x(w);
    let y = reg_y(w);
    let n = nibble(w);
    let kk = low_byte(w);
    let nnn = addr(w);
    match w & 0xf000 {
        0x0000 => if w == 0x00e0 {
            Opcode::Cls
        } else if w == 0x00ee {
            Opcode::Ret
        } else {
            Opcode::Unknown(w)
        },
        0x1000 => Opcode::Jmp(nnn),
        0x2000 => Opcode::Call(nnn),
        0x3000 => Opcode::Se(m.reg[x as usize], kk),
        0x4000 => Opcode::Sne(m.reg[x as usize], kk),
        0x5000 => Opcode::Se(m.reg[x as usize], m.reg[y as usize]),
        0x6000 => Opcode::Ld(LdTarget::Reg(x), kk),
        0x7000 => Opcode::AddImm(x, kk),
        0x8000 => match w & 0xf {
            0x0 => Opcode::Ld(LdTarget::Reg(x), m.reg[y as usize]),
            0x1 => Opcode::Or(x, y),
            0x2 => Opcode::And(x, y),
            0x3 => Opcode::Xor(x, y),
            0x4 => Opcode::Add(x, y),
            0x5 => Opcode::Sub(x, y),
            0x6 => Opcode::Shr(x),
            0x7 => Opcode::SubN(x, y),
            0xe => Opcode::Shl(x),
            _ => Opcode::Unknown(w),
        },
        0x9000 => Opcode::Sne(m.reg[x as usize], m.reg[y as usize]),
        0xa000 => Opcode::Ldi(nnn),
        0xb000 => Opcode::JmpV0(nnn),
        0xc000 => Opcode::Rnd(x, kk),
        0xd000 => Opcode::Drw(x, y, n),
        0xe000 => match w & 0xff {
            0x9e => Opcode::Skp(x),
            0xa1 => Opcode::Sknp(x),
            _ => Opcode::Unknown(w),
        },
        0xf000 => match w & 0xff {
            0x07 => Opcode::Ld(LdTarget::Reg(x), m.dt),
            0x0a => Opcode::LdKey(x),
            0x15 => Opcode::Ld(LdTarget::DelayTimer, m.reg[x as usize]),
            0x18 => Opcode::Ld(LdTarget::SoundTimer, m.reg[x as usize]),
            0x1e => Opcode::AddI(x),
            0x29 => Opcode::LdFont(x),
            0x33 => Opcode::LdBcd(x),
            0x55 => Opcode::StRegs(x),
            0x65 => Opcode::LdRegs(x),
            _ => Opcode::Unknown(w),
        },
        _ => Opcode::Unknown(w),
    }
}

} // verus!
