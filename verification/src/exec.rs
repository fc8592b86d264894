//! The executor: applies one decoded opcode to the machine state and yields a
//! continue/halt signal, plus the fetch-advance-decode-execute step itself.
//!
//! Every transition is stated by a spec function over [`MState`]; the
//! executable methods are proved to produce exactly that transition.
//! Randomness enters only through [`Machine::step`], which draws one byte
//! from the host's random source and otherwise behaves as the fully
//! deterministic [`Machine::step_with`].

use vstd::prelude::*;
use vstd::pervasive::VecAdditionalExecFns;
use vstd::arithmetic::div_mod::lemma_mod_add_multiples_vanish;
use crate::decode::{decode, op_valid, spec_decode, LdTarget, Opcode};
use crate::machine::{Machine, MState, MEM_SIZE, SCREEN_SIZE};

verus! {

/// The kind of a fatal stack fault.
#[derive(Clone, Copy, Debug, PartialEq, Eq, Structural)]
pub enum StackFault {
    /// A call would push the stack pointer beyond its last slot.
    Overflow,
    /// A return found the stack empty.
    Underflow,
}

/// What one step of the machine reports to the host.
#[derive(Clone, Copy, Debug, PartialEq, Eq, Structural)]
pub enum StepResult {
    /// The instruction was executed; the machine keeps running.
    Continued,
    /// The fetched word was the 0x0000 sentinel: normal termination.
    HaltedNormally,
    /// No known opcode pattern matched; carries the raw word.
    HaltedUnknownOpcode(u16),
    /// A call overflowed or a return underflowed the call stack.
    FatalStackFault(StackFault),
}

/// 16-bit wraparound of an integer sum.
pub open spec fn wrap16(v: int) -> u16 {
    (v % 0x10000) as u16
}

/// The program counter advanced by one instruction.
pub open spec fn spec_pc_plus2(pc: u16) -> u16 {
    wrap16(pc + 2)
}

/// The program counter rewound by one instruction.
pub open spec fn spec_pc_minus2(pc: u16) -> u16 {
    wrap16(pc - 2)
}

/// 8-bit wrapping sum, the result of register addition.
pub open spec fn add8(a: u8, b: u8) -> u8 {
    ((a + b) % 256) as u8
}

/// 8-bit wrapping difference, the result of register subtraction.
pub open spec fn sub8(a: u8, b: u8) -> u8 {
    ((a - b) % 256) as u8
}

/// The instruction word at the program counter: the byte at `pc` is the high
/// byte, the byte at `pc + 1` the low byte (big-endian). Addresses are taken
/// modulo the 4096-byte memory.
pub open spec fn spec_fetch(s: MState) -> u16 {
    (s.mem[(s.pc as int) % (MEM_SIZE as int)] * 256 + s.mem[(s.pc + 1) % (MEM_SIZE as int)]) as u16
}

/// Whether key `k` is down in the host-supplied key snapshot: bit `k` of
/// `keys` is set. Indices of 16 and above name no key and are never down.
pub open spec fn spec_key_down(keys: u16, k: u8) -> bool {
    k < 16 && ((keys >> (k as u16)) & 1) == 1
}

/// The lowest-indexed key at or above `k` that is down, if any.
pub open spec fn spec_first_key_from(keys: u16, k: u8) -> Option<u8>
    decreases 16 - k,
{
    if k >= 16 {
        None
    } else if spec_key_down(keys, k) {
        Some(k)
    } else {
        spec_first_key_from(keys, (k + 1) as u8)
    }
}

/// Memory after the BCD store: the hundreds, tens and ones digits of `v`
/// written at `I`, `I + 1`, `I + 2` (addresses modulo the memory size).
pub open spec fn spec_bcd_mem(mem: Seq<u8>, i_reg: u16, v: u8) -> Seq<u8> {
    mem.update((i_reg as int) % (MEM_SIZE as int), (v / 100) as u8).update(
        (i_reg + 1) % (MEM_SIZE as int),
        ((v / 10) % 10) as u8,
    ).update((i_reg + 2) % (MEM_SIZE as int), (v % 10) as u8)
}

/// Memory after storing registers `0 .. k` to `I .. I + k - 1`.
pub open spec fn spec_store_block(mem: Seq<u8>, reg: Seq<u8>, i_reg: u16, k: int) -> Seq<u8>
    decreases k,
{
    if k <= 0 {
        mem
    } else {
        spec_store_block(mem, reg, i_reg, k - 1).update(
            (i_reg + k - 1) % (MEM_SIZE as int),
            reg[k - 1],
        )
    }
}

/// Registers after loading `0 .. k` from `I .. I + k - 1`.
pub open spec fn spec_load_block(reg: Seq<u8>, mem: Seq<u8>, i_reg: u16, k: int) -> Seq<u8>
    decreases k,
{
    if k <= 0 {
        reg
    } else {
        spec_load_block(reg, mem, i_reg, k - 1).update(
            k - 1,
            mem[(i_reg + k - 1) % (MEM_SIZE as int)],
        )
    }
}

/// The index register after a block transfer: advanced past the block when
/// the quirk asks for it, unchanged otherwise.
pub open spec fn spec_block_i(i_reg: u16, x: u8, inc: bool) -> u16 {
    if inc {
        wrap16(i_reg + x + 1)
    } else {
        i_reg
    }
}

/// Bit `j` of a sprite row byte, most-significant bit first.
pub open spec fn sprite_bit(byte: u8, j: int) -> u8 {
    (byte >> ((7 - j) as u8)) & 1
}

/// How many of a sprite row's 8 bits land on the display when the row starts
/// at column `col0`: bits past column 63 are dropped (horizontal clipping).
pub open spec fn visible_cols(col0: int) -> int {
    if col0 > 56 {
        64 - col0
    } else {
        8
    }
}

/// The display after XORing the first `j` visible bits of one sprite row
/// onto row `row`, starting at column `col0`.
pub open spec fn spec_draw_cols(screen: Seq<u8>, byte: u8, col0: int, row: int, j: int) -> Seq<u8>
    decreases j,
{
    if j <= 0 {
        screen
    } else {
        let prev = spec_draw_cols(screen, byte, col0, row, j - 1);
        let p = row * 64 + col0 + (j - 1);
        prev.update(p, prev[p] ^ sprite_bit(byte, j - 1))
    }
}

/// Whether any of the first `j` visible bits of the sprite row turns a lit
/// pixel off: the bit is 1 and the pixel it lands on was 1.
pub open spec fn spec_collide_cols(screen: Seq<u8>, byte: u8, col0: int, row: int, j: int) -> bool
    decreases j,
{
    if j <= 0 {
        false
    } else {
        let prev = spec_draw_cols(screen, byte, col0, row, j - 1);
        let p = row * 64 + col0 + (j - 1);
        spec_collide_cols(screen, byte, col0, row, j - 1) || (prev[p] == 1 && sprite_bit(
            byte,
            j - 1,
        ) == 1)
    }
}

/// The display after drawing the first `k` rows of the sprite at memory
/// `I ..`: row `r` lands on display row `(row0 + r) % 32` (vertical wrap),
/// or is dropped below the bottom edge when `clip` is set.
pub open spec fn spec_draw_rows(
    screen: Seq<u8>,
    mem: Seq<u8>,
    i_reg: u16,
    col0: int,
    row0: int,
    clip: bool,
    k: int,
) -> Seq<u8>
    decreases k,
{
    if k <= 0 {
        screen
    } else {
        let prev = spec_draw_rows(screen, mem, i_reg, col0, row0, clip, k - 1);
        if clip && row0 + (k - 1) >= 32 {
            prev
        } else {
            let byte = mem[(i_reg + (k - 1)) % (MEM_SIZE as int)];
            spec_draw_cols(prev, byte, col0, (row0 + (k - 1)) % 32, visible_cols(col0))
        }
    }
}

/// Whether drawing the first `k` rows turns any lit pixel off.
pub open spec fn spec_collide_rows(
    screen: Seq<u8>,
    mem: Seq<u8>,
    i_reg: u16,
    col0: int,
    row0: int,
    clip: bool,
    k: int,
) -> bool
    decreases k,
{
    if k <= 0 {
        false
    } else {
        let prev = spec_draw_rows(screen, mem, i_reg, col0, row0, clip, k - 1);
        let c = spec_collide_rows(screen, mem, i_reg, col0, row0, clip, k - 1);
        if clip && row0 + (k - 1) >= 32 {
            c
        } else {
            let byte = mem[(i_reg + (k - 1)) % (MEM_SIZE as int)];
            c || spec_collide_cols(prev, byte, col0, (row0 + (k - 1)) % 32, visible_cols(col0))
        }
    }
}

/// The machine after the draw opcode: the sprite of `n` rows at memory `I`
/// is XORed onto the display starting at `(VX mod 64, VY mod 32)`, and `VF`
/// reports whether any pixel went from lit to unlit.
pub open spec fn spec_draw(s: MState, x: u8, y: u8, n: u8) -> MState {
    let col0 = (s.reg[x as int] % 64) as int;
    let row0 = (s.reg[y as int] % 32) as int;
    let clip = s.quirks.clip_sprite_rows;
    let screen2 = spec_draw_rows(s.screen, s.mem, s.i_reg, col0, row0, clip, n as int);
    let vf: u8 = if spec_collide_rows(s.screen, s.mem, s.i_reg, col0, row0, clip, n as int) {
        1
    } else {
        0
    };
    MState { screen: screen2, reg: s.reg.update(0xf, vf), ..s }
}

/// The effect of one decoded opcode on machine state `s` (whose program
/// counter has already advanced past the instruction), with key snapshot
/// `keys` and random byte `rnd`: the next state and the step's report.
pub open spec fn spec_exec(s: MState, op: Opcode, keys: u16, rnd: u8) -> (MState, StepResult) {
    match op {
        Opcode::Cls => (
            MState { screen: Seq::new(SCREEN_SIZE as nat, |i: int| 0u8), ..s },
            StepResult::Continued,
        ),
        Opcode::Ret => if s.sp == 0 {
            (MState { running: false, ..s }, StepResult::FatalStackFault(StackFault::Underflow))
        } else {
            (
                MState { pc: s.stack[s.sp as int], sp: (s.sp - 1) as u8, ..s },
                StepResult::Continued,
            )
        },
        Opcode::Jmp(nnn) => (MState { pc: nnn, ..s }, StepResult::Continued),
        Opcode::JmpV0(nnn) => (
            MState { pc: (nnn + s.reg[0]) as u16, ..s },
            StepResult::Continued,
        ),
        Opcode::Call(nnn) => if s.sp >= 15 {
            (MState { running: false, ..s }, StepResult::FatalStackFault(StackFault::Overflow))
        } else {
            (
                MState {
                    sp: (s.sp + 1) as u8,
                    stack: s.stack.update(s.sp as int + 1, s.pc),
                    pc: nnn,
                    ..s
                },
                StepResult::Continued,
            )
        },
        Opcode::Se(a, b) => (
            MState { pc: if a == b { spec_pc_plus2(s.pc) } else { s.pc }, ..s },
            StepResult::Continued,
        ),
        Opcode::Sne(a, b) => (
            MState { pc: if a != b { spec_pc_plus2(s.pc) } else { s.pc }, ..s },
            StepResult::Continued,
        ),
        Opcode::Ld(t, v) => match t {
            LdTarget::Reg(x) => (
                MState { reg: s.reg.update(x as int, v), ..s },
                StepResult::Continued,
            ),
            LdTarget::DelayTimer => (MState { dt: v, ..s }, StepResult::Continued),
            LdTarget::SoundTimer => (MState { st: v, ..s }, StepResult::Continued),
        },
        Opcode::Ldi(nnn) => (MState { i_reg: nnn, ..s }, StepResult::Continued),
        Opcode::LdRegs(x) => (
            MState {
                reg: spec_load_block(s.reg, s.mem, s.i_reg, x + 1),
                i_reg: spec_block_i(s.i_reg, x, s.quirks.increment_index_after_block),
                ..s
            },
            StepResult::Continued,
        ),
        Opcode::StRegs(x) => (
            MState {
                mem: spec_store_block(s.mem, s.reg, s.i_reg, x + 1),
                i_reg: spec_block_i(s.i_reg, x, s.quirks.increment_index_after_block),
                ..s
            },
            StepResult::Continued,
        ),
        Opcode::LdKey(x) => match spec_first_key_from(keys, 0) {
            Some(k) => (MState { reg: s.reg.update(x as int, k), ..s }, StepResult::Continued),
            None => (MState { pc: spec_pc_minus2(s.pc), ..s }, StepResult::Continued),
        },
        Opcode::LdFont(x) => (
            MState { i_reg: (5 * s.reg[x as int]) as u16, ..s },
            StepResult::Continued,
        ),
        Opcode::LdBcd(x) => (
            MState { mem: spec_bcd_mem(s.mem, s.i_reg, s.reg[x as int]), ..s },
            StepResult::Continued,
        ),
        Opcode::Add(x, y) => {
            let sum = s.reg[x as int] + s.reg[y as int];
            let vf: u8 = if sum > 255 {
                1
            } else {
                0
            };
            (
                MState { reg: s.reg.update(x as int, (sum % 256) as u8).update(0xf, vf), ..s },
                StepResult::Continued,
            )
        },
        Opcode::AddImm(x, kk) => (
            MState { reg: s.reg.update(x as int, add8(s.reg[x as int], kk)), ..s },
            StepResult::Continued,
        ),
        Opcode::AddI(x) => (
            MState { i_reg: wrap16(s.i_reg + s.reg[x as int]), ..s },
            StepResult::Continued,
        ),
        Opcode::Sub(x, y) => {
            let a = s.reg[x as int];
            let b = s.reg[y as int];
            let vf: u8 = if a >= b {
                1
            } else {
                0
            };
            (
                MState { reg: s.reg.update(x as int, sub8(a, b)).update(0xf, vf), ..s },
                StepResult::Continued,
            )
        },
        Opcode::SubN(x, y) => {
            let a = s.reg[x as int];
            let b = s.reg[y as int];
            let vf: u8 = if b >= a {
                1
            } else {
                0
            };
            (
                MState { reg: s.reg.update(x as int, sub8(b, a)).update(0xf, vf), ..s },
                StepResult::Continued,
            )
        },
        Opcode::Or(x, y) => (
            MState { reg: s.reg.update(x as int, s.reg[x as int] | s.reg[y as int]), ..s },
            StepResult::Continued,
        ),
        Opcode::And(x, y) => (
            MState { reg: s.reg.update(x as int, s.reg[x as int] & s.reg[y as int]), ..s },
            StepResult::Continued,
        ),
        Opcode::Xor(x, y) => (
            MState { reg: s.reg.update(x as int, s.reg[x as int] ^ s.reg[y as int]), ..s },
            StepResult::Continued,
        ),
        Opcode::Shr(x) => {
            let v = s.reg[x as int];
            let step1 = s.reg.update(0xf, v & 1);
            (
                MState { reg: step1.update(x as int, step1[x as int] >> 1), ..s },
                StepResult::Continued,
            )
        },
        Opcode::Shl(x) => {
            let v = s.reg[x as int];
            let step1 = s.reg.update(0xf, v >> 7);
            (
                MState {
                    reg: step1.update(x as int, ((2 * step1[x as int]) % 256) as u8),
                    ..s
                },
                StepResult::Continued,
            )
        },
        Opcode::Rnd(x, kk) => (
            MState { reg: s.reg.update(x as int, rnd & kk), ..s },
            StepResult::Continued,
        ),
        Opcode::Drw(x, y, n) => (spec_draw(s, x, y, n), StepResult::Continued),
        Opcode::Skp(x) => (
            MState {
                pc: if spec_key_down(keys, s.reg[x as int]) {
                    spec_pc_plus2(s.pc)
                } else {
                    s.pc
                },
                ..s
            },
            StepResult::Continued,
        ),
        Opcode::Sknp(x) => (
            MState {
                pc: if !spec_key_down(keys, s.reg[x as int]) {
                    spec_pc_plus2(s.pc)
                } else {
                    s.pc
                },
                ..s
            },
            StepResult::Continued,
        ),
        Opcode::Unknown(w) => (
            MState { running: false, ..s },
            StepResult::HaltedUnknownOpcode(w),
        ),
    }
}

/// One whole step: fetch the word at the program counter; the 0x0000
/// sentinel halts normally with no other state change; otherwise advance the
/// counter by 2, decode, and execute.
pub open spec fn spec_step(s: MState, keys: u16, rnd: u8) -> (MState, StepResult) {
    let w = spec_fetch(s);
    if w == 0 {
        (MState { running: false, ..s }, StepResult::HaltedNormally)
    } else {
        let s1 = MState { pc: spec_pc_plus2(s.pc), ..s };
        spec_exec(s1, spec_decode(w, s1), keys, rnd)
    }
}

/// Whether `(post, r)` is the step outcome of `pre` under key snapshot
/// `keys` and random byte `rnd`.
pub open spec fn spec_step_matches(
    pre: MState,
    post: MState,
    r: StepResult,
    keys: u16,
    rnd: u8,
) -> bool {
    post == spec_step(pre, keys, rnd).0 && r == spec_step(pre, keys, rnd).1
}

/// Relies on `rand::random`: draws one byte from the thread-local random
/// generator. Nothing is assumed of the value; every caller is verified for
/// every possible byte.
#[verifier::external_body]
fn random_byte() -> u8 {
    rand::random::<u8>()
}

/// Whether key `k` is down in the snapshot `keys`.
pub fn key_down(keys: u16, k: u8) -> (down: bool)
    ensures
        down == spec_key_down(keys, k),
{
    k < 16 && ((keys >> (k as u16)) & 1) == 1
}

/// The lowest-indexed key that is down in the snapshot, or `None`.
pub fn first_key(keys: u16) -> (r: Option<u8>)
    ensures
        r == spec_first_key_from(keys, 0),
{
    let mut k: u8 = 0;
    while k < 16
        invariant
            k <= 16,
            spec_first_key_from(keys, 0) == spec_first_key_from(keys, k),
        decreases 16 - k,
    {
        if key_down(keys, k) {
            return Some(k);
        }
        k += 1;
    }
    None
}

impl Machine {
    /// Fetches the big-endian instruction word at the program counter.
    pub fn fetch_word(&self) -> (w: u16)
        requires
            self.wf(),
        ensures
            w == spec_fetch(self@),
    {
        let hi = self.mem[(self.pc as usize) % MEM_SIZE];
        let lo = self.mem[((self.pc as usize) + 1) % MEM_SIZE];
        (hi as u16) * 256 + (lo as u16)
    }

    /// Advances the program counter by one instruction, wrapping at 16 bits.
    fn advance_pc(&mut self)
        ensures
            final(self)@ == (MState { pc: spec_pc_plus2(old(self).pc), ..old(self)@ }),
    {
        let t: u32 = self.pc as u32 + 2;
        self.pc = (t % 0x10000) as u16;
    }

    /// Rewinds the program counter by one instruction, wrapping at 16 bits,
    /// so the same instruction is re-issued on the next step.
    fn rewind_pc(&mut self)
        ensures
            final(self)@ == (MState { pc: spec_pc_minus2(old(self).pc), ..old(self)@ }),
    {
        let t: u32 = self.pc as u32 + 0xfffe;
        proof {
            lemma_mod_add_multiples_vanish(self.pc - 2, 0x10000);
        }
        self.pc = (t % 0x10000) as u16;
    }

    /// Stores the three decimal digits of `VX` at `I`, `I + 1`, `I + 2`.
    fn exec_bcd(&mut self, x: u8)
        requires
            old(self).wf(),
            x < 16,
        ensures
            final(self).wf(),
            final(self)@ == (MState {
                mem: spec_bcd_mem(old(self)@.mem, old(self)@.i_reg, old(self)@.reg[x as int]),
                ..old(self)@
            }),
    {
        let v = self.reg[x as usize];
        let a0 = (self.i_reg as usize) % MEM_SIZE;
        let a1 = ((self.i_reg as usize) + 1) % MEM_SIZE;
        let a2 = ((self.i_reg as usize) + 2) % MEM_SIZE;
        self.mem.set(a0, v / 100);
        self.mem.set(a1, (v / 10) % 10);
        self.mem.set(a2, v % 10);
    }

    /// Stores registers `V0 ..= VX` to memory at `I`, honoring the
    /// index-increment quirk.
    fn exec_store_block(&mut self, x: u8)
        requires
            old(self).wf(),
            x < 16,
        ensures
            final(self).wf(),
            final(self)@ == (MState {
                mem: spec_store_block(old(self)@.mem, old(self)@.reg, old(self)@.i_reg, x + 1),
                i_reg: spec_block_i(
                    old(self)@.i_reg,
                    x,
                    old(self)@.quirks.increment_index_after_block,
                ),
                ..old(self)@
            }),
    {
        let mut idx: u8 = 0;
        while idx <= x
            invariant
                idx <= x + 1,
                x < 16,
                old(self).wf(),
                self@ == (MState { mem: self@.mem, ..old(self)@ }),
                self@.mem.len() == MEM_SIZE,
                self@.mem == spec_store_block(
                    old(self)@.mem,
                    old(self)@.reg,
                    old(self)@.i_reg,
                    idx as int,
                ),
            decreases x + 1 - idx,
        {
            let a = ((self.i_reg as usize) + (idx as usize)) % MEM_SIZE;
            self.mem.set(a, self.reg[idx as usize]);
            idx += 1;
        }
        if self.quirks.increment_index_after_block {
            let t: u32 = self.i_reg as u32 + x as u32 + 1;
            self.i_reg = (t % 0x10000) as u16;
        }
    }

    /// Loads registers `V0 ..= VX` from memory at `I`, honoring the
    /// index-increment quirk.
    fn exec_load_block(&mut self, x: u8)
        requires
            old(self).wf(),
            x < 16,
        ensures
            final(self).wf(),
            final(self)@ == (MState {
                reg: spec_load_block(old(self)@.reg, old(self)@.mem, old(self)@.i_reg, x + 1),
                i_reg: spec_block_i(
                    old(self)@.i_reg,
                    x,
                    old(self)@.quirks.increment_index_after_block,
                ),
                ..old(self)@
            }),
    {
        let mut idx: u8 = 0;
        while idx <= x
            invariant
                idx <= x + 1,
                x < 16,
                old(self).wf(),
                self@ == (MState { reg: self@.reg, ..old(self)@ }),
                self@.reg.len() == 16,
                self@.reg == spec_load_block(
                    old(self)@.reg,
                    old(self)@.mem,
                    old(self)@.i_reg,
                    idx as int,
                ),
            decreases x + 1 - idx,
        {
            let a = ((self.i_reg as usize) + (idx as usize)) % MEM_SIZE;
            let b = self.mem[a];
            self.reg.set(idx as usize, b);
            idx += 1;
        }
        if self.quirks.increment_index_after_block {
            let t: u32 = self.i_reg as u32 + x as u32 + 1;
            self.i_reg = (t % 0x10000) as u16;
        }
    }

    /// Draws the `n`-row sprite at memory `I` at `(VX mod 64, VY mod 32)`,
    /// XOR-compositing most-significant bit first, clipping on the horizontal
    /// axis and wrapping (or clipping, per quirk) on the vertical axis; sets
    /// `VF` to 1 exactly when a lit pixel went unlit.
    fn exec_draw(&mut self, x: u8, y: u8, n: u8)
        requires
            old(self).wf(),
            x < 16,
            y < 16,
            n < 16,
        ensures
            final(self).wf(),
            final(self)@ == spec_draw(old(self)@, x, y, n),
    {
        let col0: u8 = self.reg[x as usize] % 64;
        let row0: u8 = self.reg[y as usize] % 32;
        let clip = self.quirks.clip_sprite_rows;
        let mut erased = false;
        let mut k: u8 = 0;
        while k < n
            invariant
                k <= n,
                n < 16,
                col0 < 64,
                row0 < 32,
                old(self).wf(),
                col0 == old(self)@.reg[x as int] % 64,
                row0 == old(self)@.reg[y as int] % 32,
                clip == old(self)@.quirks.clip_sprite_rows,
                self@ == (MState { screen: self@.screen, ..old(self)@ }),
                self@.screen.len() == SCREEN_SIZE,
                forall|p: int| 0 <= p < SCREEN_SIZE ==> self@.screen[p] <= 1,
                self@.screen == spec_draw_rows(
                    old(self)@.screen,
                    old(self)@.mem,
                    old(self)@.i_reg,
                    col0 as int,
                    row0 as int,
                    clip,
                    k as int,
                ),
                erased == spec_collide_rows(
                    old(self)@.screen,
                    old(self)@.mem,
                    old(self)@.i_reg,
                    col0 as int,
                    row0 as int,
                    clip,
                    k as int,
                ),
            decreases n - k,
        {
            if !(clip && row0 + k >= 32) {
                let byte = self.mem[((self.i_reg as usize) + (k as usize)) % MEM_SIZE];
                let row: u8 = (row0 + k) % 32;
                let off: u8 = if col0 > 56 {
                    64 - col0
                } else {
                    8
                };
                let ghost srow = self@.screen;
                let ghost erased_rows = erased;
                let mut j: u8 = 0;
                while j < off
                    invariant
                        j <= off,
                        off == visible_cols(col0 as int),
                        col0 < 64,
                        row < 32,
                        self@ == (MState { screen: self@.screen, ..old(self)@ }),
                        self@.screen.len() == SCREEN_SIZE,
                        forall|p: int| 0 <= p < SCREEN_SIZE ==> self@.screen[p] <= 1,
                        self@.screen == spec_draw_cols(srow, byte, col0 as int, row as int, j as int),
                        erased == (erased_rows || spec_collide_cols(
                            srow,
                            byte,
                            col0 as int,
                            row as int,
                            j as int,
                        )),
                        srow.len() == SCREEN_SIZE,
                        forall|p: int| 0 <= p < SCREEN_SIZE ==> srow[p] <= 1,
                    decreases off - j,
                {
                    let p: usize = (row as usize) * 64 + (col0 as usize) + (j as usize);
                    let sh: u8 = 7 - j;
                    let bit: u8 = (byte >> sh) & 1;
                    proof {
                        assert((byte >> sh) & 1 <= 1) by (bit_vector);
                        assert(sh == (7 - (j as int)) as u8);
                    }
                    let cur = self.screen[p];
                    if cur == 1 && bit == 1 {
                        erased = true;
                    }
                    proof {
                        let b = bit;
                        let c = cur;
                        assert(c <= 1 && b <= 1 ==> (c ^ b) <= 1) by (bit_vector);
                    }
                    self.screen.set(p, cur ^ bit);
                    j += 1;
                    proof {
                        assert(self@.screen =~= spec_draw_cols(
                            srow,
                            byte,
                            col0 as int,
                            row as int,
                            j as int,
                        ));
                    }
                }
            }
            k += 1;
        }
        let vf: u8 = if erased {
            1
        } else {
            0
        };
        self.reg.set(0xf, vf);
        proof {
            assert(final(self)@ =~= spec_draw(old(self)@, x, y, n));
        }
    }

    /// The control-flow opcodes: screen clear, jumps, calls, returns, skips
    /// and the unknown-opcode halt.
    #[verifier::rlimit(80)]
    fn exec_ctrl(&mut self, op: Opcode, keys: u16, rnd: u8) -> (r: StepResult)
        requires
            old(self).wf(),
            op_valid(op),
            op is Cls || op is Ret || op is Jmp || op is JmpV0 || op is Call || op is Se || op is Sne || op is Skp || op is Sknp || op is Unknown,
        ensures
            final(self).wf(),
            final(self)@ == spec_exec(old(self)@, op, keys, rnd).0,
            r == spec_exec(old(self)@, op, keys, rnd).1,
    {
        match op {
            Opcode::Cls => {
                let mut k: usize = 0;
                while k < SCREEN_SIZE
                    invariant
                        k <= SCREEN_SIZE,
                        self@ == (MState { screen: self@.screen, ..old(self)@ }),
                        self@.screen.len() == SCREEN_SIZE,
                        forall|p: int| 0 <= p < k ==> self@.screen[p] == 0u8,
                    decreases SCREEN_SIZE - k,
                {
                    self.screen.set(k, 0);
                    k += 1;
                }
                proof {
                    assert(self@.screen =~= Seq::new(SCREEN_SIZE as nat, |i: int| 0u8));
                }
                StepResult::Continued
            },
            Opcode::Ret => {
                if self.sp == 0 {
                    self.running = false;
                    StepResult::FatalStackFault(StackFault::Underflow)
                } else {
                    self.pc = self.stack[self.sp as usize];
                    self.sp = self.sp - 1;
                    StepResult::Continued
                }
            },
            Opcode::Jmp(nnn) => {
                self.pc = nnn;
                StepResult::Continued
            },
            Opcode::JmpV0(nnn) => {
                self.pc = nnn + (self.reg[0] as u16);
                StepResult::Continued
            },
            Opcode::Call(nnn) => {
                if self.sp >= 15 {
                    self.running = false;
                    StepResult::FatalStackFault(StackFault::Overflow)
                } else {
                    self.sp = self.sp + 1;
                    let pc = self.pc;
                    self.stack.set(self.sp as usize, pc);
                    self.pc = nnn;
                    StepResult::Continued
                }
            },
            Opcode::Se(a, b) => {
                if a == b {
                    self.advance_pc();
                }
                StepResult::Continued
            },
            Opcode::Sne(a, b) => {
                if a != b {
                    self.advance_pc();
                }
                StepResult::Continued
            },
            Opcode::Skp(x) => {
                if key_down(keys, self.reg[x as usize]) {
                    self.advance_pc();
                }
                StepResult::Continued
            },
            Opcode::Sknp(x) => {
                if !key_down(keys, self.reg[x as usize]) {
                    self.advance_pc();
                }
                StepResult::Continued
            },
            Opcode::Unknown(w) => {
                self.running = false;
                StepResult::HaltedUnknownOpcode(w)
            },
            _ => unreached(),
        }
    }

    /// The plain load opcodes: immediate and register loads, the index
    /// register, the key wait and the font lookup.
    #[verifier::rlimit(80)]
    fn exec_loads(&mut self, op: Opcode, keys: u16, rnd: u8) -> (r: StepResult)
        requires
            old(self).wf(),
            op_valid(op),
            op is Ld || op is Ldi || op is LdKey || op is LdFont,
        ensures
            final(self).wf(),
            final(self)@ == spec_exec(old(self)@, op, keys, rnd).0,
            r == spec_exec(old(self)@, op, keys, rnd).1,
    {
        match op {
            Opcode::Ld(t, v) => {
                match t {
                    LdTarget::Reg(x) => self.reg.set(x as usize, v),
                    LdTarget::DelayTimer => self.dt = v,
                    LdTarget::SoundTimer => self.st = v,
                }
                StepResult::Continued
            },
            Opcode::Ldi(nnn) => {
                self.i_reg = nnn;
                StepResult::Continued
            },
            Opcode::LdKey(x) => {
                match first_key(keys) {
                    Some(k) => self.reg.set(x as usize, k),
                    None => self.rewind_pc(),
                }
                StepResult::Continued
            },
            Opcode::LdFont(x) => {
                self.i_reg = 5 * (self.reg[x as usize] as u16);
                StepResult::Continued
            },
            _ => unreached(),
        }
    }

    /// The memory-block opcodes: register-file transfers and the BCD store.
    #[verifier::rlimit(80)]
    fn exec_memops(&mut self, op: Opcode, keys: u16, rnd: u8) -> (r: StepResult)
        requires
            old(self).wf(),
            op_valid(op),
            op is LdRegs || op is StRegs || op is LdBcd,
        ensures
            final(self).wf(),
            final(self)@ == spec_exec(old(self)@, op, keys, rnd).0,
            r == spec_exec(old(self)@, op, keys, rnd).1,
    {
        match op {
            Opcode::LdRegs(x) => {
                self.exec_load_block(x);
                StepResult::Continued
            },
            Opcode::StRegs(x) => {
                self.exec_store_block(x);
                StepResult::Continued
            },
            Opcode::LdBcd(x) => {
                self.exec_bcd(x);
                StepResult::Continued
            },
            _ => unreached(),
        }
    }

    /// The arithmetic, logic, random and draw opcodes.
    #[verifier::rlimit(80)]
    fn exec_alu(&mut self, op: Opcode, keys: u16, rnd: u8) -> (r: StepResult)
        requires
            old(self).wf(),
            op_valid(op),
            op is Add || op is AddImm || op is AddI || op is Sub || op is SubN || op is Or || op is And || op is Xor || op is Shr || op is Shl || op is Rnd || op is Drw,
        ensures
            final(self).wf(),
            final(self)@ == spec_exec(old(self)@, op, keys, rnd).0,
            r == spec_exec(old(self)@, op, keys, rnd).1,
    {
        match op {
            Opcode::Add(x, y) => {
                let sum: u16 = (self.reg[x as usize] as u16) + (self.reg[y as usize] as u16);
                let vf: u8 = if sum > 255 {
                    1
                } else {
                    0
                };
                self.reg.set(x as usize, (sum % 256) as u8);
                self.reg.set(0xf, vf);
                StepResult::Continued
            },
            Opcode::AddImm(x, kk) => {
                let sum: u16 = (self.reg[x as usize] as u16) + (kk as u16);
                self.reg.set(x as usize, (sum % 256) as u8);
                StepResult::Continued
            },
            Opcode::AddI(x) => {
                let t: u32 = (self.i_reg as u32) + (self.reg[x as usize] as u32);
                self.i_reg = (t % 0x10000) as u16;
                StepResult::Continued
            },
            Opcode::Sub(x, y) => {
                let a = self.reg[x as usize];
                let b = self.reg[y as usize];
                let vf: u8 = if a >= b {
                    1
                } else {
                    0
                };
                let d: u16 = ((a as u16) + 256 - (b as u16)) % 256;
                proof {
                    lemma_mod_add_multiples_vanish(a - b, 256);
                }
                self.reg.set(x as usize, d as u8);
                self.reg.set(0xf, vf);
                StepResult::Continued
            },
            Opcode::SubN(x, y) => {
                let a = self.reg[x as usize];
                let b = self.reg[y as usize];
                let vf: u8 = if b >= a {
                    1
                } else {
                    0
                };
                let d: u16 = ((b as u16) + 256 - (a as u16)) % 256;
                proof {
                    lemma_mod_add_multiples_vanish(b - a, 256);
                }
                self.reg.set(x as usize, d as u8);
                self.reg.set(0xf, vf);
                StepResult::Continued
            },
            Opcode::Or(x, y) => {
                let v = self.reg[x as usize] | self.reg[y as usize];
                self.reg.set(x as usize, v);
                StepResult::Continued
            },
            Opcode::And(x, y) => {
                let v = self.reg[x as usize] & self.reg[y as usize];
                self.reg.set(x as usize, v);
                StepResult::Continued
            },
            Opcode::Xor(x, y) => {
                let v = self.reg[x as usize] ^ self.reg[y as usize];
                self.reg.set(x as usize, v);
                StepResult::Continued
            },
            Opcode::Shr(x) => {
                let v = self.reg[x as usize];
                self.reg.set(0xf, v & 1);
                let v2 = self.reg[x as usize];
                self.reg.set(x as usize, v2 >> 1);
                StepResult::Continued
            },
            Opcode::Shl(x) => {
                let v = self.reg[x as usize];
                self.reg.set(0xf, v >> 7);
                let v2 = self.reg[x as usize];
                self.reg.set(x as usize, (((v2 as u16) * 2) % 256) as u8);
                StepResult::Continued
            },
            Opcode::Rnd(x, kk) => {
                self.reg.set(x as usize, rnd & kk);
                StepResult::Continued
            },
            Opcode::Drw(x, y, n) => {
                self.exec_draw(x, y, n);
                StepResult::Continued
            },
            _ => unreached(),
        }
    }

    /// Applies one decoded opcode to the machine with key snapshot `keys`
    /// and random byte `rnd`; the outcome is exactly [`spec_exec`].
    pub fn execute(&mut self, op: Opcode, keys: u16, rnd: u8) -> (r: StepResult)
        requires
            old(self).wf(),
            op_valid(op),
        ensures
            final(self).wf(),
            final(self)@ == spec_exec(old(self)@, op, keys, rnd).0,
            r == spec_exec(old(self)@, op, keys, rnd).1,
    {
        match op {
            Opcode::Cls | Opcode::Ret | Opcode::Jmp(_) | Opcode::JmpV0(_) | Opcode::Call(_)
                | Opcode::Se(_, _) | Opcode::Sne(_, _) | Opcode::Skp(_) | Opcode::Sknp(_)
                | Opcode::Unknown(_) => self.exec_ctrl(op, keys, rnd),
            Opcode::Ld(_, _) | Opcode::Ldi(_) | Opcode::LdKey(_) | Opcode::LdFont(_) => self
                .exec_loads(op, keys, rnd),
            Opcode::LdRegs(_) | Opcode::StRegs(_) | Opcode::LdBcd(_) => self.exec_memops(
                op,
                keys,
                rnd,
            ),
            Opcode::Add(_, _) | Opcode::AddImm(_, _) | Opcode::AddI(_) | Opcode::Sub(_, _)
                | Opcode::SubN(_, _) | Opcode::Or(_, _) | Opcode::And(_, _) | Opcode::Xor(_, _)
                | Opcode::Shr(_) | Opcode::Shl(_) | Opcode::Rnd(_, _) | Opcode::Drw(_, _, _) => self
                .exec_alu(op, keys, rnd),
        }
    }

    /// One fully deterministic step with the given key snapshot and random
    /// byte: fetch, sentinel check, advance, decode, execute. The outcome is
    /// exactly [`spec_step`].
    pub fn step_with(&mut self, keys: u16, rnd: u8) -> (r: StepResult)
        requires
            old(self).wf(),
            old(self)@.running,
        ensures
            final(self).wf(),
            final(self)@ == spec_step(old(self)@, keys, rnd).0,
            r == spec_step(old(self)@, keys, rnd).1,
    {
        let w = self.fetch_word();
        if w == 0 {
            self.running = false;
            return StepResult::HaltedNormally;
        }
        self.advance_pc();
        let op = decode(w, self);
        self.execute(op, keys, rnd)
    }

    /// One step against the host's random source: draws one random byte and
    /// steps as [`Machine::step_with`] with it. Whatever the byte, the
    /// outcome is the step outcome for some byte.
    pub fn step(&mut self, keys: u16) -> (r: StepResult)
        requires
            old(self).wf(),
            old(self)@.running,
        ensures
            final(self).wf(),
            exists|rnd: u8| spec_step_matches(old(self)@, final(self)@, r, keys, rnd),
    {
        let rnd = random_byte();
        let r = self.step_with(keys, rnd);
        proof {
            assert(spec_step_matches(old(self)@, self@, r, keys, rnd));
        }
        r
    }
}

} // verus!
