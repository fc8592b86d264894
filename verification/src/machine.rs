//! The machine state: memory, registers, call stack, timers and display.

use vstd::prelude::*;
use vstd::pervasive::VecAdditionalExecFns;

verus! {

/// Size of the address space in bytes; addresses run 0x000-0xFFF.
pub const MEM_SIZE: usize = 4096;

/// First address of the loaded program.
pub const PROG_START: usize = 0x200;

/// Largest program image that fits between 0x200 and the end of memory.
pub const MAX_PROGRAM_BYTES: usize = 3584;

/// Number of general-purpose 8-bit registers.
pub const NUM_REGS: usize = 16;

/// Number of call-stack slots.
pub const STACK_SIZE: usize = 16;

/// Display width in pixels.
pub const SCREEN_W: usize = 64;

/// Display height in pixels.
pub const SCREEN_H: usize = 32;

/// Number of cells in the display buffer (64 * 32).
pub const SCREEN_SIZE: usize = 2048;

/// Size of the built-in font table: 16 glyphs of 5 bytes each.
pub const FONT_BYTES: usize = 80;

/// Documented deviation points between implementations of this instruction
/// set; both observed behaviors are intentional, so the choice is explicit.
#[derive(Clone, Copy, Debug, PartialEq, Eq, Structural)]
pub struct Quirks {
    /// After the block register/memory transfer opcodes, advance the index
    /// register past the transferred block (`I += x + 1`).
    pub increment_index_after_block: bool,
    /// Clip sprite rows that fall below the bottom display edge instead of
    /// wrapping them back to the top.
    pub clip_sprite_rows: bool,
}

impl Quirks {
    /// The baseline behavior: the index register is left unchanged by block
    /// transfers, and sprite rows wrap on the vertical axis.
    pub open spec fn spec_default() -> Quirks {
        Quirks { increment_index_after_block: false, clip_sprite_rows: false }
    }
}

impl Default for Quirks {
    fn default() -> (q: Quirks)
        ensures
            q == Quirks::spec_default(),
    {
        Quirks { increment_index_after_block: false, clip_sprite_rows: false }
    }
}

/// The mathematical model of a machine state: every field of [`Machine`],
/// with the byte vectors abstracted to sequences.
#[verifier::ext_equal]
pub ghost struct MState {
    pub mem: Seq<u8>,
    pub reg: Seq<u8>,
    pub i_reg: u16,
    pub pc: u16,
    pub sp: u8,
    pub stack: Seq<u16>,
    pub dt: u8,
    pub st: u8,
    pub screen: Seq<u8>,
    pub running: bool,
    pub quirks: Quirks,
}

impl MState {
    /// Well-formedness: the buffers have their fixed sizes, the stack pointer
    /// stays inside the stack, and every display cell is 0 or 1.
    pub open spec fn wf(self) -> bool {
        &&& self.mem.len() == MEM_SIZE
        &&& self.reg.len() == NUM_REGS
        &&& self.stack.len() == STACK_SIZE
        &&& self.sp < STACK_SIZE
        &&& self.screen.len() == SCREEN_SIZE
        &&& forall|p: int| 0 <= p < SCREEN_SIZE ==> self.screen[p] <= 1
    }
}

/// The sole stateful entity of the interpreter. Created once per run; a
/// program image is loaded at 0x200; afterwards only the executor mutates it,
/// one opcode at a time, until a halt condition.
pub struct Machine {
    /// 4096 bytes; 0x000-0x04F hold the font table, the program starts at 0x200.
    pub mem: Vec<u8>,
    /// 16 general-purpose 8-bit registers; register 0xF doubles as the
    /// carry/borrow/collision flag output of several opcodes.
    pub reg: Vec<u8>,
    /// The 16-bit index register `I`, base address of memory-block opcodes.
    pub i_reg: u16,
    /// The program counter; starts at 0x200 and advances in units of 2.
    pub pc: u16,
    /// Stack pointer into `stack`; 0 means the stack is empty.
    pub sp: u8,
    /// Return addresses of the calls in flight.
    pub stack: Vec<u16>,
    /// Delay timer, decremented by the host's 60 Hz cadence.
    pub dt: u8,
    /// Sound timer, decremented by the host's 60 Hz cadence; nonzero means play.
    pub st: u8,
    /// 64x32 monochrome display buffer, row-major; cell value 1 means lit.
    pub screen: Vec<u8>,
    /// The running/halted phase; there is no way back to running once halted.
    pub running: bool,
    /// The configured deviation points.
    pub quirks: Quirks,
}

impl View for Machine {
    type V = MState;

    open spec fn view(&self) -> MState {
        MState {
            mem: self.mem@,
            reg: self.reg@,
            i_reg: self.i_reg,
            pc: self.pc,
            sp: self.sp,
            stack: self.stack@,
            dt: self.dt,
            st: self.st,
            screen: self.screen@,
            running: self.running,
            quirks: self.quirks,
        }
    }
}

/// The fixed font table: sixteen 5-byte glyphs for the hex digits 0-F,
/// written to addresses 0x000-0x04F at construction.
pub open spec fn font_seq() -> Seq<u8> {
    seq![
        0xf0u8, 0x90, 0x90, 0x90, 0xf0,
        0x20, 0x60, 0x20, 0x20, 0x70,
        0xf0, 0x10, 0xf0, 0x80, 0xf0,
        0xf0, 0x10, 0xf0, 0x10, 0xf0,
        0x90, 0x90, 0xf0, 0x10, 0x10,
        0xf0, 0x80, 0xf0, 0x10, 0xf0,
        0xf0, 0x80, 0xf0, 0x90, 0xf0,
        0xf0, 0x10, 0x20, 0x40, 0x40,
        0xf0, 0x90, 0xf0, 0x90, 0xf0,
        0xf0, 0x90, 0xf0, 0x10, 0xf0,
        0xf0, 0x90, 0xf0, 0x90, 0x90,
        0xe0, 0x90, 0xe0, 0x90, 0xe0,
        0xf0, 0x80, 0x80, 0x80, 0xf0,
        0xe0, 0x90, 0x90, 0x90, 0xe0,
        0xf0, 0x80, 0xf0, 0x80, 0xf0,
        0xf0, 0x80, 0xf0, 0x80, 0x80,
    ]
}

/// Memory as it stands after construction: the font table, then zeroes.
pub open spec fn spec_init_mem() -> Seq<u8> {
    Seq::new(MEM_SIZE as nat, |i: int| if i < FONT_BYTES { font_seq()[i] } else { 0u8 })
}

/// The machine state produced by construction with quirk choice `q`.
pub open spec fn spec_init(q: Quirks) -> MState {
    MState {
        mem: spec_init_mem(),
        reg: Seq::new(NUM_REGS as nat, |i: int| 0u8),
        i_reg: 0,
        pc: PROG_START as u16,
        sp: 0,
        stack: Seq::new(STACK_SIZE as nat, |i: int| 0u16),
        dt: 0,
        st: 0,
        screen: Seq::new(SCREEN_SIZE as nat, |i: int| 0u8),
        running: true,
        quirks: q,
    }
}

/// A rejected program load; the machine is left untouched.
#[derive(Clone, Copy, Debug, PartialEq, Eq, Structural)]
pub enum LoadError {
    /// The image is longer than the 3584 bytes between 0x200 and 0xFFF.
    ProgramTooLarge,
}

/// Memory after a successful load of `prog` at 0x200: the image replaces the
/// bytes from 0x200 on, everything else is unchanged.
pub open spec fn spec_load_mem(mem: Seq<u8>, prog: Seq<u8>) -> Seq<u8> {
    Seq::new(
        mem.len(),
        |i: int|
            if PROG_START <= i < PROG_START + prog.len() {
                prog[i - PROG_START]
            } else {
                mem[i]
            },
    )
}

/// A vector of `n` copies of `val`.
fn filled<T: Copy>(n: usize, val: T) -> (v: Vec<T>)
    ensures
        v@ == Seq::new(n as nat, |i: int| val),
{
    let mut v: Vec<T> = Vec::new();
    let mut k: usize = 0;
    while k < n
        invariant
            k <= n,
            v@ == Seq::new(k as nat, |i: int| val),
        decreases n - k,
    {
        v.push(val);
        k += 1;
        proof {
            assert(v@ =~= Seq::new(k as nat, |i: int| val));
        }
    }
    v
}

/// The font table as an executable vector.
fn font_table() -> (v: Vec<u8>)
    ensures
        v@ == font_seq(),
{
    let v: Vec<u8> = vec![
        0xf0u8, 0x90, 0x90, 0x90, 0xf0,
        0x20, 0x60, 0x20, 0x20, 0x70,
        0xf0, 0x10, 0xf0, 0x80, 0xf0,
        0xf0, 0x10, 0xf0, 0x10, 0xf0,
        0x90, 0x90, 0xf0, 0x10, 0x10,
        0xf0, 0x80, 0xf0, 0x10, 0xf0,
        0xf0, 0x80, 0xf0, 0x90, 0xf0,
        0xf0, 0x10, 0x20, 0x40, 0x40,
        0xf0, 0x90, 0xf0, 0x90, 0xf0,
        0xf0, 0x90, 0xf0, 0x10, 0xf0,
        0xf0, 0x90, 0xf0, 0x90, 0x90,
        0xe0, 0x90, 0xe0, 0x90, 0xe0,
        0xf0, 0x80, 0x80, 0x80, 0xf0,
        0xe0, 0x90, 0x90, 0x90, 0xe0,
        0xf0, 0x80, 0xf0, 0x80, 0xf0,
        0xf0, 0x80, 0xf0, 0x80, 0x80,
    ];
    proof {
        assert(v@ =~= font_seq());
    }
    v
}

impl Machine {
    /// Well-formedness of the executable state; see [`MState::wf`].
    pub open spec fn wf(&self) -> bool {
        self@.wf()
    }

    /// A fresh machine with the baseline quirk choices: font table in place,
    /// everything else zeroed, program counter at 0x200, phase running.
    pub fn new() -> (m: Machine)
        ensures
            m.wf(),
            m@ == spec_init(Quirks::spec_default()),
    {
        Machine::with_quirks(Quirks::default())
    }

    /// A fresh machine with the given quirk choices.
    pub fn with_quirks(quirks: Quirks) -> (m: Machine)
        ensures
            m.wf(),
            m@ == spec_init(quirks),
    {
        let font = font_table();
        let mut mem = filled::<u8>(MEM_SIZE, 0);
        let mut k: usize = 0;
        while k < FONT_BYTES
            invariant
                k <= FONT_BYTES,
                font@ == font_seq(),
                mem@.len() == MEM_SIZE,
                forall|j: int| 0 <= j < k ==> mem@[j] == font_seq()[j],
                forall|j: int| k <= j < MEM_SIZE ==> mem@[j] == 0u8,
            decreases FONT_BYTES - k,
        {
            proof {
                assert(font_seq().len() == FONT_BYTES);
            }
            mem.set(k, font[k]);
            k += 1;
        }
        let m = Machine {
            mem,
            reg: filled::<u8>(NUM_REGS, 0),
            i_reg: 0,
            pc: 0x200,
            sp: 0,
            stack: filled::<u16>(STACK_SIZE, 0),
            dt: 0,
            st: 0,
            screen: filled::<u8>(SCREEN_SIZE, 0),
            running: true,
            quirks,
        };
        proof {
            assert(m@.mem =~= spec_init(quirks).mem);
            assert(m@ =~= spec_init(quirks));
        }
        m
    }

    /// Writes a program image into memory starting at 0x200. An image longer
    /// than [`MAX_PROGRAM_BYTES`] is rejected whole: nothing is written.
    pub fn load_program(&mut self, program: &Vec<u8>) -> (r: Result<(), LoadError>)
        requires
            old(self).wf(),
        ensures
            final(self).wf(),
            r is Ok <==> program@.len() <= MAX_PROGRAM_BYTES,
            r is Ok ==> final(self)@ == (MState {
                mem: spec_load_mem(old(self)@.mem, program@),
                ..old(self)@
            }),
            r is Err ==> final(self)@ == old(self)@ && r == Err::<(), LoadError>(
                LoadError::ProgramTooLarge,
            ),
    {
        if program.len() > MAX_PROGRAM_BYTES {
            return Err(LoadError::ProgramTooLarge);
        }
        let mut k: usize = 0;
        while k < program.len()
            invariant
                k <= program@.len(),
                program@.len() <= MAX_PROGRAM_BYTES,
                self@.mem.len() == MEM_SIZE,
                self@ == (MState { mem: self@.mem, ..old(self)@ }),
                old(self).wf(),
                forall|j: int|
                    PROG_START <= j < PROG_START + k ==> self@.mem[j] == program@[j - PROG_START],
                forall|j: int|
                    0 <= j < MEM_SIZE && !(PROG_START <= j < PROG_START + k) ==> self@.mem[j]
                        == old(self)@.mem[j],
            decreases program@.len() - k,
        {
            self.mem.set(PROG_START + k, program[k]);
            k += 1;
        }
        proof {
            assert(self@.mem =~= spec_load_mem(old(self)@.mem, program@));
            assert(self@ =~= (MState { mem: spec_load_mem(old(self)@.mem, program@), ..old(self)@ }));
        }
        Ok(())
    }

    /// One tick of the host's 60 Hz cadence: each timer decrements toward
    /// zero and stops there; the core never ticks them on its own.
    pub fn tick_timers(&mut self)
        requires
            old(self).wf(),
        ensures
            final(self).wf(),
            final(self)@ == (MState {
                dt: if old(self)@.dt > 0 {
                    (old(self)@.dt - 1) as u8
                } else {
                    0u8
                },
                st: if old(self)@.st > 0 {
                    (old(self)@.st - 1) as u8
                } else {
                    0u8
                },
                ..old(self)@
            }),
    {
        if self.dt > 0 {
            self.dt = self.dt - 1;
        }
        if self.st > 0 {
            self.st = self.st - 1;
        }
    }

    /// The display buffer, read-only, for the external renderer: one cell per
    /// pixel, row-major, nonzero means lit.
    pub fn display(&self) -> (d: &Vec<u8>)
        ensures
            d@ == self@.screen,
    {
        &self.screen
    }

    /// The current sound timer: nonzero means the external audio layer
    /// should play, zero means stop.
    pub fn sound_timer(&self) -> (t: u8)
        ensures
            t == self@.st,
    {
        self.st
    }

    /// The current delay timer.
    pub fn delay_timer(&self) -> (t: u8)
        ensures
            t == self@.dt,
    {
        self.dt
    }

    /// Whether the machine is still in its running phase; once halted there
    /// is no way back but re-initialization.
    pub fn is_running(&self) -> (r: bool)
        ensures
            r == self@.running,
    {
        self.running
    }
}

} // verus!
