//! General properties of the interpreter, stated over the transition
//! specifications and proved once for all machine states.

use vstd::prelude::*;
use vstd::arithmetic::div_mod::{
    lemma_add_mod_noop, lemma_div_denominator, lemma_fundamental_div_mod,
    lemma_mod_add_multiples_vanish, lemma_small_mod,
};
use crate::decode::{spec_decode, Opcode};
use crate::exec::{
    spec_bcd_mem, spec_collide_cols, spec_collide_rows, spec_draw, spec_draw_cols, spec_draw_rows, spec_exec,
    spec_fetch, spec_first_key_from, spec_key_down, spec_pc_plus2, spec_step, sprite_bit,
    visible_cols, StepResult,
};
use crate::machine::{MState, MEM_SIZE};

verus! {

/// Whether executing `op` leaves the program counter where the fetch put it:
/// `op` neither redirects control nor takes a skip nor stalls on a key wait.
pub open spec fn plain_advance(op: Opcode, keys: u16, s: MState) -> bool {
    match op {
        Opcode::Jmp(_) => false,
        Opcode::JmpV0(_) => false,
        Opcode::Call(_) => false,
        Opcode::Ret => false,
        Opcode::Unknown(_) => false,
        Opcode::LdKey(_) => spec_first_key_from(keys, 0) is Some,
        Opcode::Se(a, b) => a != b,
        Opcode::Sne(a, b) => a == b,
        Opcode::Skp(x) => !spec_key_down(keys, s.reg[x as int]),
        Opcode::Sknp(x) => spec_key_down(keys, s.reg[x as int]),
        _ => true,
    }
}

/// A step whose instruction neither redirects control nor skips advances the
/// program counter by exactly 2: the fetch adds 2 and the opcode leaves it.
pub proof fn lemma_pc_advances_by_two(s: MState, keys: u16, rnd: u8)
    requires
        s.wf(),
        spec_fetch(s) != 0,
        plain_advance(
            spec_decode(spec_fetch(s), MState { pc: spec_pc_plus2(s.pc), ..s }),
            keys,
            MState { pc: spec_pc_plus2(s.pc), ..s },
        ),
    ensures
        spec_step(s, keys, rnd).0.pc == spec_pc_plus2(s.pc),
{
}

/// Register addition: the result is the wrapping sum `(a + b) mod 256`, and
/// the flag register reports exactly whether the unsigned sum overflowed 255.
/// (When the destination is the flag register itself, the flag write wins.)
pub proof fn lemma_add_semantics(s: MState, x: u8, y: u8, keys: u16, rnd: u8)
    requires
        s.wf(),
        x < 16,
        y < 16,
        x != 0xf,
    ensures
        ({
            let a = s.reg[x as int];
            let b = s.reg[y as int];
            let s2 = spec_exec(s, Opcode::Add(x, y), keys, rnd).0;
            &&& s2.reg[x as int] == (a + b) % 256
            &&& s2.reg[0xf] == (if a + b > 255 {
                1u8
            } else {
                0u8
            })
            &&& spec_exec(s, Opcode::Add(x, y), keys, rnd).1 == StepResult::Continued
        }),
{
}

/// Register subtraction: the result is the wrapping difference
/// `(a - b) mod 256`, and the flag register is 1 exactly when `a >= b`, that
/// is, when no borrow occurred.
pub proof fn lemma_sub_semantics(s: MState, x: u8, y: u8, keys: u16, rnd: u8)
    requires
        s.wf(),
        x < 16,
        y < 16,
        x != 0xf,
    ensures
        ({
            let a = s.reg[x as int];
            let b = s.reg[y as int];
            let s2 = spec_exec(s, Opcode::Sub(x, y), keys, rnd).0;
            &&& s2.reg[x as int] == (a - b) % 256
            &&& s2.reg[0xf] == (if a >= b {
                1u8
            } else {
                0u8
            })
            &&& spec_exec(s, Opcode::Sub(x, y), keys, rnd).1 == StepResult::Continued
        }),
{
}

/// Shift right: the flag register receives the pre-shift least-significant
/// bit, and the register becomes the value shifted right by one, which is
/// division by two.
pub proof fn lemma_shr_semantics(s: MState, x: u8, keys: u16, rnd: u8)
    requires
        s.wf(),
        x < 16,
        x != 0xf,
    ensures
        ({
            let v = s.reg[x as int];
            let s2 = spec_exec(s, Opcode::Shr(x), keys, rnd).0;
            &&& s2.reg[0xf] == v % 2
            &&& s2.reg[x as int] == v / 2
        }),
{
    let v = s.reg[x as int];
    assert(v & 1 == v % 2) by (bit_vector);
    assert(v >> 1 == v / 2) by (bit_vector);
}

/// BCD decomposition round-trips: for every byte, the hundreds, tens and
/// ones digits weighted back together give the byte again.
pub proof fn lemma_bcd_round_trip(v: u8)
    ensures
        100 * (v / 100) + 10 * ((v / 10) % 10) + (v % 10) == v,
{
    lemma_fundamental_div_mod(v as int, 10);
    lemma_fundamental_div_mod((v as int) / 10, 10);
    lemma_div_denominator(v as int, 10, 10);
}

/// The BCD store writes the three decimal digits of `VX` at `I`, `I + 1`,
/// `I + 2`, and those three bytes weighted back together give `VX`.
pub proof fn lemma_bcd_stored(s: MState, x: u8, keys: u16, rnd: u8)
    requires
        s.wf(),
        x < 16,
    ensures
        ({
            let v = s.reg[x as int];
            let m2 = spec_exec(s, Opcode::LdBcd(x), keys, rnd).0.mem;
            let a0 = (s.i_reg as int) % (MEM_SIZE as int);
            let a1 = (s.i_reg + 1) % (MEM_SIZE as int);
            let a2 = (s.i_reg + 2) % (MEM_SIZE as int);
            &&& m2[a0] == v / 100
            &&& m2[a1] == (v / 10) % 10
            &&& m2[a2] == v % 10
            &&& 100 * m2[a0] + 10 * m2[a1] + m2[a2] == v
        }),
{
    let i = s.i_reg as int;
    let m = MEM_SIZE as int;
    lemma_bcd_addrs_distinct(s.i_reg);
    lemma_bcd_round_trip(s.reg[x as int]);
    assert(spec_exec(s, Opcode::LdBcd(x), keys, rnd).0.mem == spec_bcd_mem(
        s.mem,
        s.i_reg,
        s.reg[x as int],
    ));
}

/// The three BCD store addresses are pairwise distinct.
pub proof fn lemma_bcd_addrs_distinct(i_reg: u16)
    ensures
        ({
            let a0 = (i_reg as int) % (MEM_SIZE as int);
            let a1 = (i_reg + 1) % (MEM_SIZE as int);
            let a2 = (i_reg + 2) % (MEM_SIZE as int);
            a0 != a1 && a0 != a2 && a1 != a2
        }),
{
    let i = i_reg as int;
    let m = MEM_SIZE as int;
    let a0 = i % m;
    lemma_add_mod_noop(i, 1, m);
    lemma_add_mod_noop(i, 2, m);
    lemma_small_mod(1nat, m as nat);
    lemma_small_mod(2nat, m as nat);
    if a0 + 1 < m {
        lemma_small_mod((a0 + 1) as nat, m as nat);
    } else {
        lemma_mod_add_multiples_vanish(a0 + 1 - m, m);
        lemma_small_mod((a0 + 1 - m) as nat, m as nat);
    }
    if a0 + 2 < m {
        lemma_small_mod((a0 + 2) as nat, m as nat);
    } else {
        lemma_mod_add_multiples_vanish(a0 + 2 - m, m);
        lemma_small_mod((a0 + 2 - m) as nat, m as nat);
    }
}

/// A call followed by a return restores the program counter to the
/// instruction after the call, and leaves stack depth, registers, memory and
/// display as they were.
pub proof fn lemma_call_then_ret_restores_pc(s: MState, nnn: u16, keys: u16, rnd: u8)
    requires
        s.wf(),
        s.sp < 15,
    ensures
        ({
            let s1 = spec_exec(s, Opcode::Call(nnn), keys, rnd).0;
            let s2 = spec_exec(s1, Opcode::Ret, keys, rnd).0;
            &&& spec_exec(s, Opcode::Call(nnn), keys, rnd).1 == StepResult::Continued
            &&& spec_exec(s1, Opcode::Ret, keys, rnd).1 == StepResult::Continued
            &&& s1.pc == nnn
            &&& s2.pc == s.pc
            &&& s2.sp == s.sp
            &&& s2.reg == s.reg
            &&& s2.mem == s.mem
            &&& s2.screen == s.screen
        }),
{
}

/// The random opcode with mask 0 always stores 0, whatever byte the random
/// source produced.
pub proof fn lemma_random_mask_zero(s: MState, x: u8, keys: u16, rnd: u8)
    requires
        s.wf(),
        x < 16,
    ensures
        spec_exec(s, Opcode::Rnd(x, 0), keys, rnd).0.reg[x as int] == 0,
{
    assert(rnd & 0 == 0) by (bit_vector);
}

/// With no key down, no key is found from any starting index.
pub proof fn lemma_no_keys_none(k: u8)
    ensures
        spec_first_key_from(0, k) == None::<u8>,
    decreases 16 - k,
{
    assert(forall|j: u16| ((0u16 >> j) & 1) != 1) by (bit_vector);
    if k < 16 {
        lemma_no_keys_none((k + 1) as u8);
    }
}

/// A key-wait step with no key down leaves the program counter net-unchanged
/// (the fetch advances it, the stall rewinds it) and touches nothing else,
/// so the same instruction is re-issued on the next step.
pub proof fn lemma_key_wait_stalls(s: MState, x: u8, keys: u16, rnd: u8)
    requires
        s.wf(),
        spec_fetch(s) != 0,
        spec_decode(spec_fetch(s), MState { pc: spec_pc_plus2(s.pc), ..s }) == Opcode::LdKey(x),
        spec_first_key_from(keys, 0) is None,
    ensures
        spec_step(s, keys, rnd).0 == s,
        spec_step(s, keys, rnd).1 == StepResult::Continued,
{
    lemma_pc_plus2_minus2(s.pc);
    assert(spec_step(s, keys, rnd).0 =~= s);
}

/// Advancing then rewinding the 16-bit program counter restores it.
pub proof fn lemma_pc_plus2_minus2(pc: u16)
    ensures
        ((spec_pc_plus2(pc) - 2) % 0x10000) as u16 == pc,
{
    let m = 0x10000;
    if pc + 2 < m {
        lemma_small_mod((pc + 2) as nat, m as nat);
        lemma_small_mod(pc as nat, m as nat);
    } else {
        lemma_mod_add_multiples_vanish(pc + 2 - m, m);
        lemma_small_mod((pc + 2 - m) as nat, m as nat);
        lemma_mod_add_multiples_vanish(pc - m + m - 2, m);
        lemma_small_mod(pc as nat, m as nat);
    }
}

/// The two phases track the step reports exactly: a running machine stays
/// running on `Continued` and leaves the running phase on the sentinel, on a
/// decode failure and on a stack fault -- and on nothing else.
pub proof fn lemma_phase_follows_result(s: MState, keys: u16, rnd: u8)
    requires
        s.wf(),
        s.running,
    ensures
        spec_step(s, keys, rnd).0.running <==> spec_step(s, keys, rnd).1 == StepResult::Continued,
{
}

/// Fetching the 0x0000 sentinel halts normally and mutates nothing but the
/// phase: memory, registers, counters, stack, timers and display stay put.
pub proof fn lemma_sentinel_halts(s: MState, keys: u16, rnd: u8)
    requires
        spec_fetch(s) == 0,
    ensures
        spec_step(s, keys, rnd).1 == StepResult::HaltedNormally,
        spec_step(s, keys, rnd).0 == (MState { running: false, ..s }),
{
}


/// Whether drawing the first `k` sprite rows touches pixel `p`: the pixel's
/// row is one of the rows the sprite lands on and its column is under the
/// row's visible bits.
pub open spec fn covers(col0: int, row0: int, clip: bool, k: int, p: int) -> bool {
    let d = ((p / 64) - row0) % 32;
    &&& 0 <= d < k
    &&& (!clip || row0 + d < 32)
    &&& col0 <= p % 64 < col0 + visible_cols(col0)
}

/// The sprite bit that lands on pixel `p`: bit `column - col0` of the sprite
/// row that covers the pixel's display row.
pub open spec fn pixel_bit(mem: Seq<u8>, i_reg: u16, col0: int, row0: int, p: int) -> u8 {
    sprite_bit(
        mem[(i_reg + (((p / 64) - row0) % 32)) % (MEM_SIZE as int)],
        (p % 64) - col0,
    )
}

/// Pointwise effect of one sprite row: within the drawn span the pixel is
/// XORed with its sprite bit, outside it nothing changes.
proof fn lemma_draw_cols_px(screen: Seq<u8>, byte: u8, col0: int, row: int, j: int, p: int)
    requires
        screen.len() == 2048,
        0 <= col0 < 64,
        0 <= row < 32,
        0 <= j <= visible_cols(col0),
        0 <= p < 2048,
    ensures
        spec_draw_cols(screen, byte, col0, row, j).len() == 2048,
        (row * 64 + col0 <= p < row * 64 + col0 + j) ==> spec_draw_cols(
            screen,
            byte,
            col0,
            row,
            j,
        )[p] == screen[p] ^ sprite_bit(byte, p - (row * 64 + col0)),
        !(row * 64 + col0 <= p < row * 64 + col0 + j) ==> spec_draw_cols(
            screen,
            byte,
            col0,
            row,
            j,
        )[p] == screen[p],
    decreases j,
{
    if j > 0 {
        lemma_draw_cols_px(screen, byte, col0, row, j - 1, p);
        let q = row * 64 + col0 + (j - 1);
        if p != q {
            lemma_draw_cols_px(screen, byte, col0, row, j - 1, q);
        }
    }
}

/// One sprite row collides exactly when some visible bit of it is 1 and the
/// pixel it lands on is lit.
proof fn lemma_collide_cols_iff(screen: Seq<u8>, byte: u8, col0: int, row: int, j: int)
    requires
        screen.len() == 2048,
        0 <= col0 < 64,
        0 <= row < 32,
        0 <= j <= visible_cols(col0),
    ensures
        spec_collide_cols(screen, byte, col0, row, j) <==> (exists|jj: int|
            0 <= jj < j && screen[row * 64 + col0 + jj] == 1 && sprite_bit(byte, jj) == 1),
    decreases j,
{
    if j > 0 {
        lemma_collide_cols_iff(screen, byte, col0, row, j - 1);
        let q = row * 64 + col0 + (j - 1);
        lemma_draw_cols_px(screen, byte, col0, row, j - 1, q);
        let prev = spec_draw_cols(screen, byte, col0, row, j - 1);
        if spec_collide_cols(screen, byte, col0, row, j) {
            if spec_collide_cols(screen, byte, col0, row, j - 1) {
                let jj = choose|jj: int|
                    0 <= jj < j - 1 && screen[row * 64 + col0 + jj] == 1 && sprite_bit(byte, jj)
                        == 1;
                assert(0 <= jj < j && screen[row * 64 + col0 + jj] == 1 && sprite_bit(byte, jj)
                    == 1);
            } else {
                assert(screen[q] == 1 && sprite_bit(byte, j - 1) == 1);
                assert(0 <= j - 1 < j && screen[row * 64 + col0 + (j - 1)] == 1 && sprite_bit(
                    byte,
                    j - 1,
                ) == 1);
            }
        }
        if exists|jj: int|
            0 <= jj < j && screen[row * 64 + col0 + jj] == 1 && sprite_bit(byte, jj) == 1 {
            let jj = choose|jj: int|
                0 <= jj < j && screen[row * 64 + col0 + jj] == 1 && sprite_bit(byte, jj) == 1;
            if jj < j - 1 {
                assert(spec_collide_cols(screen, byte, col0, row, j - 1));
            } else {
                assert(prev[q] == screen[q]);
            }
        }
    }
}

/// Row arithmetic: a display row `r` is the landing row of sprite row `kk`
/// exactly when the wrapped distance from `row0` to `r` is `kk`.
proof fn lemma_row_index_iff(row0: int, r: int, kk: int)
    requires
        0 <= row0 < 32,
        0 <= r < 32,
        0 <= kk < 32,
    ensures
        (((r - row0) % 32) == kk) <==> (r == (row0 + kk) % 32),
{
    if r >= row0 {
        lemma_small_mod((r - row0) as nat, 32);
    } else {
        lemma_mod_add_multiples_vanish(r - row0, 32);
        lemma_small_mod((r - row0 + 32) as nat, 32);
    }
    if row0 + kk < 32 {
        lemma_small_mod((row0 + kk) as nat, 32);
    } else {
        lemma_mod_add_multiples_vanish(row0 + kk - 32, 32);
        lemma_small_mod((row0 + kk - 32) as nat, 32);
    }
}

/// Pointwise effect of a whole draw: a covered pixel is XORed with its
/// sprite bit, every other pixel is untouched. Within one draw no pixel is
/// touched twice, because the (at most 15) sprite rows land on distinct
/// display rows.
proof fn lemma_draw_rows_px(
    screen: Seq<u8>,
    mem: Seq<u8>,
    i_reg: u16,
    col0: int,
    row0: int,
    clip: bool,
    k: int,
    p: int,
)
    requires
        screen.len() == 2048,
        mem.len() == MEM_SIZE,
        0 <= col0 < 64,
        0 <= row0 < 32,
        0 <= k <= 16,
        0 <= p < 2048,
    ensures
        spec_draw_rows(screen, mem, i_reg, col0, row0, clip, k).len() == 2048,
        covers(col0, row0, clip, k, p) ==> spec_draw_rows(screen, mem, i_reg, col0, row0, clip, k)[p]
            == screen[p] ^ pixel_bit(mem, i_reg, col0, row0, p),
        !covers(col0, row0, clip, k, p) ==> spec_draw_rows(
            screen,
            mem,
            i_reg,
            col0,
            row0,
            clip,
            k,
        )[p] == screen[p],
    decreases k,
{
    if k > 0 {
        lemma_draw_rows_px(screen, mem, i_reg, col0, row0, clip, k - 1, p);
        let prev = spec_draw_rows(screen, mem, i_reg, col0, row0, clip, k - 1);
        let r = p / 64;
        let c = p % 64;
        assert(p == 64 * r + c);
        assert(0 <= r < 32);
        let d = (r - row0) % 32;
        lemma_row_index_iff(row0, r, k - 1);
        if clip && row0 + (k - 1) >= 32 {
            assert(covers(col0, row0, clip, k, p) <==> covers(col0, row0, clip, k - 1, p));
        } else {
            let rowk = (row0 + (k - 1)) % 32;
            let byte = mem[(i_reg + (k - 1)) % (MEM_SIZE as int)];
            lemma_draw_cols_px(prev, byte, col0, rowk, visible_cols(col0), p);
            if r == rowk && col0 <= c < col0 + visible_cols(col0) {
                assert(d == k - 1);
                assert(!covers(col0, row0, clip, k - 1, p));
                assert(rowk * 64 + col0 <= p < rowk * 64 + col0 + visible_cols(col0));
                assert(p - (rowk * 64 + col0) == c - col0);
                assert(covers(col0, row0, clip, k, p));
            } else {
                assert(!(rowk * 64 + col0 <= p < rowk * 64 + col0 + visible_cols(col0)));
                assert(covers(col0, row0, clip, k, p) <==> covers(col0, row0, clip, k - 1, p));
            }
        }
    }
}

/// A draw collides exactly when some covered pixel with sprite bit 1 was lit
/// before the draw.
proof fn lemma_collide_rows_iff(
    screen: Seq<u8>,
    mem: Seq<u8>,
    i_reg: u16,
    col0: int,
    row0: int,
    clip: bool,
    k: int,
)
    requires
        screen.len() == 2048,
        mem.len() == MEM_SIZE,
        0 <= col0 < 64,
        0 <= row0 < 32,
        0 <= k <= 16,
    ensures
        spec_collide_rows(screen, mem, i_reg, col0, row0, clip, k) <==> (exists|p: int|
            0 <= p < 2048 && covers(col0, row0, clip, k, p) && screen[p] == 1 && pixel_bit(
                mem,
                i_reg,
                col0,
                row0,
                p,
            ) == 1),
    decreases k,
{
    if k > 0 {
        lemma_collide_rows_iff(screen, mem, i_reg, col0, row0, clip, k - 1);
        let prev = spec_draw_rows(screen, mem, i_reg, col0, row0, clip, k - 1);
        let skipped = clip && row0 + (k - 1) >= 32;
        let rowk = (row0 + (k - 1)) % 32;
        let byte = mem[(i_reg + (k - 1)) % (MEM_SIZE as int)];
        lemma_draw_rows_px(screen, mem, i_reg, col0, row0, clip, k - 1, 0);
        if !skipped {
            lemma_collide_cols_iff(prev, byte, col0, rowk, visible_cols(col0));
        }
        // forward
        if spec_collide_rows(screen, mem, i_reg, col0, row0, clip, k) {
            if spec_collide_rows(screen, mem, i_reg, col0, row0, clip, k - 1) {
                let p = choose|p: int|
                    0 <= p < 2048 && covers(col0, row0, clip, k - 1, p) && screen[p] == 1
                        && pixel_bit(mem, i_reg, col0, row0, p) == 1;
                assert(covers(col0, row0, clip, k, p));
                assert(exists|p: int|
                    0 <= p < 2048 && covers(col0, row0, clip, k, p) && screen[p] == 1 && pixel_bit(
                        mem,
                        i_reg,
                        col0,
                        row0,
                        p,
                    ) == 1);
            } else {
                assert(!skipped);
                let jj = choose|jj: int|
                    0 <= jj < visible_cols(col0) && prev[rowk * 64 + col0 + jj] == 1 && sprite_bit(
                        byte,
                        jj,
                    ) == 1;
                let p = rowk * 64 + col0 + jj;
                assert(0 <= p < 2048);
                assert(p / 64 == rowk && p % 64 == col0 + jj) by {
                    lemma_small_mod((col0 + jj) as nat, 64);
                    lemma_fundamental_div_mod(p, 64);
                    assert(p == 64 * rowk + (col0 + jj));
                };
                lemma_row_index_iff(row0, rowk, k - 1);
                assert(((p / 64) - row0) % 32 == k - 1);
                lemma_draw_rows_px(screen, mem, i_reg, col0, row0, clip, k - 1, p);
                assert(!covers(col0, row0, clip, k - 1, p));
                assert(prev[p] == screen[p]);
                assert(covers(col0, row0, clip, k, p));
                assert(pixel_bit(mem, i_reg, col0, row0, p) == sprite_bit(byte, jj));
                assert(exists|p: int|
                    0 <= p < 2048 && covers(col0, row0, clip, k, p) && screen[p] == 1 && pixel_bit(
                        mem,
                        i_reg,
                        col0,
                        row0,
                        p,
                    ) == 1);
            }
        }
        // backward
        if exists|p: int|
            0 <= p < 2048 && covers(col0, row0, clip, k, p) && screen[p] == 1 && pixel_bit(
                mem,
                i_reg,
                col0,
                row0,
                p,
            ) == 1 {
            let p = choose|p: int|
                0 <= p < 2048 && covers(col0, row0, clip, k, p) && screen[p] == 1 && pixel_bit(
                    mem,
                    i_reg,
                    col0,
                    row0,
                    p,
                ) == 1;
            let r = p / 64;
            let c = p % 64;
            assert(p == 64 * r + c);
            assert(0 <= r < 32);
            let d = (r - row0) % 32;
            if d < k - 1 {
                assert(covers(col0, row0, clip, k - 1, p));
                assert(spec_collide_rows(screen, mem, i_reg, col0, row0, clip, k - 1));
            } else {
                assert(d == k - 1);
                assert(!skipped);
                lemma_row_index_iff(row0, r, k - 1);
                assert(r == rowk);
                let jj = c - col0;
                lemma_draw_rows_px(screen, mem, i_reg, col0, row0, clip, k - 1, p);
                assert(!covers(col0, row0, clip, k - 1, p));
                assert(prev[rowk * 64 + col0 + jj] == 1);
                assert(pixel_bit(mem, i_reg, col0, row0, p) == sprite_bit(byte, jj));
                assert(spec_collide_cols(prev, byte, col0, rowk, visible_cols(col0)));
            }
        }
    }
}


/// Whether the draw opcode `Drw(x, y, n)` on state `s` lands a lit sprite
/// bit on pixel `p`.
pub open spec fn sprite_lands_lit(s: MState, x: u8, y: u8, n: u8, p: int) -> bool {
    let col0 = (s.reg[x as int] % 64) as int;
    let row0 = (s.reg[y as int] % 32) as int;
    &&& covers(col0, row0, s.quirks.clip_sprite_rows, n as int, p)
    &&& pixel_bit(s.mem, s.i_reg, col0, row0, p) == 1
}

proof fn lemma_draw_twice_core(s: MState, x: u8, y: u8, n: u8)
    requires
        s.wf(),
        x < 16,
        y < 16,
        n < 16,
        x != 0xf,
        y != 0xf,
        forall|p: int|
            0 <= p < 2048 && #[trigger] sprite_lands_lit(s, x, y, n, p) ==> s.screen[p] == 0,
        exists|p: int| 0 <= p < 2048 && #[trigger] sprite_lands_lit(s, x, y, n, p),
    ensures
        ({
            let s1 = spec_draw(s, x, y, n);
            let s2 = spec_draw(s1, x, y, n);
            &&& s1.reg[0xf] == 0
            &&& s2.reg[0xf] == 1
            &&& s2.screen =~= s.screen
            &&& forall|p: int|
                0 <= p < 2048 && #[trigger] sprite_lands_lit(s, x, y, n, p) ==> s1.screen[p] == 1
                    && s2.screen[p] == 0
        }),
{
    let col0 = (s.reg[x as int] % 64) as int;
    let row0 = (s.reg[y as int] % 32) as int;
    let clip = s.quirks.clip_sprite_rows;
    let nn = n as int;
    let s1 = spec_draw(s, x, y, n);
    let s2 = spec_draw(s1, x, y, n);
    let screen1 = spec_draw_rows(s.screen, s.mem, s.i_reg, col0, row0, clip, nn);
    let screen2 = spec_draw_rows(screen1, s.mem, s.i_reg, col0, row0, clip, nn);
    assert(s1.screen == screen1 && s1.mem == s.mem && s1.i_reg == s.i_reg && s1.quirks == s.quirks);
    assert(s1.reg[x as int] == s.reg[x as int] && s1.reg[y as int] == s.reg[y as int]);
    assert(s2.screen == screen2);
    lemma_draw_rows_px(s.screen, s.mem, s.i_reg, col0, row0, clip, nn, 0);

    // the first draw does not collide: every pixel a lit bit lands on is 0
    lemma_collide_rows_iff(s.screen, s.mem, s.i_reg, col0, row0, clip, nn);
    assert(!spec_collide_rows(s.screen, s.mem, s.i_reg, col0, row0, clip, nn)) by {
        if spec_collide_rows(s.screen, s.mem, s.i_reg, col0, row0, clip, nn) {
            let p = choose|p: int|
                0 <= p < 2048 && covers(col0, row0, clip, nn, p) && s.screen[p] == 1 && pixel_bit(
                    s.mem,
                    s.i_reg,
                    col0,
                    row0,
                    p,
                ) == 1;
            assert(sprite_lands_lit(s, x, y, n, p));
        }
    };
    assert(s1.reg[0xf] == 0);

    // pixels a lit bit lands on are 1 after the first draw
    assert forall|p: int|
        0 <= p < 2048 && #[trigger] sprite_lands_lit(s, x, y, n, p) implies screen1[p] == 1 by {
        lemma_draw_rows_px(s.screen, s.mem, s.i_reg, col0, row0, clip, nn, p);
        assert(screen1[p] == s.screen[p] ^ 1u8);
        assert(s.screen[p] == 0);
        assert(0u8 ^ 1u8 == 1u8) by (bit_vector);
    };

    // so the second draw collides
    let p0 = choose|p: int| 0 <= p < 2048 && #[trigger] sprite_lands_lit(s, x, y, n, p);
    lemma_collide_rows_iff(screen1, s.mem, s.i_reg, col0, row0, clip, nn);
    assert(covers(col0, row0, clip, nn, p0) && pixel_bit(s.mem, s.i_reg, col0, row0, p0) == 1
        && screen1[p0] == 1);
    assert(spec_collide_rows(screen1, s.mem, s.i_reg, col0, row0, clip, nn));
    assert(s2.reg[0xf] == 1);

    // and undoes the first draw pixel by pixel
    assert forall|p: int| 0 <= p < 2048 implies #[trigger] screen2[p] == s.screen[p] by {
        lemma_draw_rows_px(s.screen, s.mem, s.i_reg, col0, row0, clip, nn, p);
        lemma_draw_rows_px(screen1, s.mem, s.i_reg, col0, row0, clip, nn, p);
        if covers(col0, row0, clip, nn, p) {
            let b = pixel_bit(s.mem, s.i_reg, col0, row0, p);
            let c = s.screen[p];
            assert(((c ^ b) ^ b) == c) by (bit_vector);
        }
    };
    lemma_draw_rows_px(screen1, s.mem, s.i_reg, col0, row0, clip, nn, 0);
    assert(screen2.len() == 2048);
    assert(screen2 =~= s.screen);
    assert forall|p: int|
        0 <= p < 2048 && #[trigger] sprite_lands_lit(s, x, y, n, p) implies s1.screen[p] == 1
        && s2.screen[p] == 0 by {
        assert(screen2[p] == s.screen[p]);
        assert(s.screen[p] == 0);
    };
}

/// Drawing a nonzero sprite onto pixels it finds unlit lights them without a
/// collision; an immediately repeated identical draw reports a collision,
/// clears those pixels again, and restores the whole display. The flag
/// register must not be a coordinate register, or the second draw would read
/// a coordinate the first draw's flag write overwrote.
pub proof fn lemma_draw_twice_clears_and_collides(
    s: MState,
    x: u8,
    y: u8,
    n: u8,
    keys: u16,
    rnd: u8,
)
    requires
        s.wf(),
        x < 16,
        y < 16,
        n < 16,
        x != 0xf,
        y != 0xf,
        forall|p: int|
            0 <= p < 2048 && #[trigger] sprite_lands_lit(s, x, y, n, p) ==> s.screen[p] == 0,
        exists|p: int| 0 <= p < 2048 && #[trigger] sprite_lands_lit(s, x, y, n, p),
    ensures
        ({
            let s1 = spec_exec(s, Opcode::Drw(x, y, n), keys, rnd).0;
            let s2 = spec_exec(s1, Opcode::Drw(x, y, n), keys, rnd).0;
            &&& spec_exec(s, Opcode::Drw(x, y, n), keys, rnd).1 == StepResult::Continued
            &&& s1.reg[0xf] == 0
            &&& s2.reg[0xf] == 1
            &&& s2.screen =~= s.screen
            &&& forall|p: int|
                0 <= p < 2048 && #[trigger] sprite_lands_lit(s, x, y, n, p) ==> s1.screen[p] == 1
                    && s2.screen[p] == 0
        }),
{
    assert(spec_exec(s, Opcode::Drw(x, y, n), keys, rnd).0 == spec_draw(s, x, y, n));
    let s1 = spec_draw(s, x, y, n);
    assert(spec_exec(s1, Opcode::Drw(x, y, n), keys, rnd).0 == spec_draw(s1, x, y, n));
    lemma_draw_twice_core(s, x, y, n);
}

} // verus!
