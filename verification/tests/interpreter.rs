//! Whole-machine behavior: construction, program loading, the step loop's
//! halt conditions, the call stack, drawing and the timers.

use chip8::exec::{StackFault, StepResult};
use chip8::machine::{LoadError, Machine};

/// A fresh machine with `program` loaded at 0x200.
fn machine_with(program: &[u8]) -> Machine {
    let mut m = Machine::new();
    m.load_program(&program.to_vec()).unwrap();
    m
}

#[test]
fn new_machine_has_font_and_start_address() {
    let m = Machine::new();
    assert_eq!(m.mem[0x000], 0xf0);
    assert_eq!(m.mem[0x04f], 0x80);
    assert_eq!(m.mem[0x050], 0x00);
    assert_eq!(m.pc, 0x200);
    assert_eq!(m.sp, 0);
    assert!(m.is_running());
    assert!(m.display().iter().all(|&p| p == 0));
}

#[test]
fn load_program_writes_at_0x200() {
    let m = machine_with(&[0x12, 0x34, 0x56]);
    assert_eq!(m.mem[0x200], 0x12);
    assert_eq!(m.mem[0x201], 0x34);
    assert_eq!(m.mem[0x202], 0x56);
    assert_eq!(m.mem[0x203], 0x00);
}

#[test]
fn load_accepts_largest_program() {
    let mut m = Machine::new();
    assert_eq!(m.load_program(&vec![0xaa; 3584]), Ok(()));
    assert_eq!(m.mem[0xfff], 0xaa);
}

#[test]
fn load_rejects_oversized_program_whole() {
    let mut m = Machine::new();
    let r = m.load_program(&vec![0xaa; 3585]);
    assert_eq!(r, Err(LoadError::ProgramTooLarge));
    // nothing was written
    assert_eq!(m.mem[0x200], 0);
    assert_eq!(m.mem[0xfff], 0);
}

#[test]
fn load_then_add_immediate_scenario() {
    // V0 := 5, then V0 += 3: register 0 ends at 8, the flag is untouched.
    let mut m = machine_with(&[0x60, 0x05, 0x70, 0x03]);
    assert_eq!(m.step_with(0, 0), StepResult::Continued);
    assert_eq!(m.step_with(0, 0), StepResult::Continued);
    assert_eq!(m.reg[0], 8);
    assert_eq!(m.reg[0xf], 0);
}

#[test]
fn clear_screen_zeroes_nonzero_buffer() {
    let mut m = machine_with(&[0x00, 0xe0]);
    m.screen[5] = 1;
    m.screen[2047] = 1;
    m.step_with(0, 0);
    assert!(m.display().iter().all(|&p| p == 0));
}

#[test]
fn call_then_return_restores_pc() {
    let mut m = machine_with(&[0x23, 0x00]);
    m.mem[0x300] = 0x00;
    m.mem[0x301] = 0xee;
    assert_eq!(m.step_with(0, 0), StepResult::Continued);
    assert_eq!(m.pc, 0x300);
    assert_eq!(m.sp, 1);
    assert_eq!(m.stack[1], 0x202);
    assert_eq!(m.step_with(0, 0), StepResult::Continued);
    assert_eq!(m.pc, 0x202);
    assert_eq!(m.sp, 0);
}

#[test]
fn random_with_zero_mask_is_zero() {
    // exercises the real random source: whatever it returns, mask 0 wins
    let mut m = machine_with(&[0xc0, 0x00]);
    m.reg[0] = 0xff;
    assert_eq!(m.step(0), StepResult::Continued);
    assert_eq!(m.reg[0], 0);
}

#[test]
fn key_wait_with_no_key_stalls_in_place() {
    let mut m = machine_with(&[0xf0, 0x0a]);
    assert_eq!(m.step_with(0, 0), StepResult::Continued);
    // the fetch advanced and the stall rewound: net unchanged
    assert_eq!(m.pc, 0x200);
    assert!(m.is_running());
    // the same instruction is re-issued on the next step
    assert_eq!(m.step_with(0, 0), StepResult::Continued);
    assert_eq!(m.pc, 0x200);
}

#[test]
fn zero_word_halts_normally_without_mutation() {
    let mut m = machine_with(&[0x00, 0x00]);
    m.reg[7] = 42;
    let r = m.step_with(0, 0);
    assert_eq!(r, StepResult::HaltedNormally);
    assert!(!m.is_running());
    assert_eq!(m.pc, 0x200);
    assert_eq!(m.reg[7], 42);
    assert_eq!(m.sp, 0);
    assert!(m.display().iter().all(|&p| p == 0));
}

#[test]
fn unknown_opcode_halts_with_word() {
    let mut m = machine_with(&[0xf0, 0xff]);
    let r = m.step_with(0, 0);
    assert_eq!(r, StepResult::HaltedUnknownOpcode(0xf0ff));
    assert!(!m.is_running());
}

#[test]
fn unknown_low_zero_family_word_is_not_a_jump() {
    let mut m = machine_with(&[0x01, 0x23]);
    assert_eq!(m.step_with(0, 0), StepResult::HaltedUnknownOpcode(0x0123));
}

#[test]
fn return_on_empty_stack_is_fatal_underflow() {
    let mut m = machine_with(&[0x00, 0xee]);
    let r = m.step_with(0, 0);
    assert_eq!(r, StepResult::FatalStackFault(StackFault::Underflow));
    assert!(!m.is_running());
}

#[test]
fn sixteenth_nested_call_is_fatal_overflow() {
    let mut m = machine_with(&[0x23, 0x00]);
    m.sp = 15;
    let r = m.step_with(0, 0);
    assert_eq!(r, StepResult::FatalStackFault(StackFault::Overflow));
    assert!(!m.is_running());
}

#[test]
fn fifteen_nested_calls_succeed() {
    // a chain of calls: each instruction calls the next address
    let mut program: Vec<u8> = Vec::new();
    for k in 0..15u16 {
        let target: u16 = 0x202 + 2 * k;
        program.push(0x20 | (target >> 8) as u8);
        program.push((target & 0xff) as u8);
    }
    let mut m = machine_with(&program);
    for _ in 0..15 {
        assert_eq!(m.step_with(0, 0), StepResult::Continued);
    }
    assert_eq!(m.sp, 15);
}

#[test]
fn draw_lights_pixels_and_reports_no_collision() {
    let mut m = machine_with(&[0xd0, 0x12]);
    m.i_reg = 0x600;
    m.mem[0x600] = 0b1010_0000;
    m.mem[0x601] = 0b0100_0000;
    m.reg[0] = 3; // column
    m.reg[1] = 5; // row
    m.step_with(0, 0);
    assert_eq!(m.screen[5 * 64 + 3], 1);
    assert_eq!(m.screen[5 * 64 + 4], 0);
    assert_eq!(m.screen[5 * 64 + 5], 1);
    assert_eq!(m.screen[6 * 64 + 4], 1);
    assert_eq!(m.reg[0xf], 0);
}

#[test]
fn draw_same_sprite_twice_clears_and_collides() {
    let mut m = machine_with(&[0xd0, 0x11, 0xd0, 0x11]);
    m.i_reg = 0x600;
    m.mem[0x600] = 0xff;
    m.reg[0] = 10;
    m.reg[1] = 7;
    m.step_with(0, 0);
    assert_eq!(m.reg[0xf], 0);
    assert!((0..8).all(|c| m.screen[7 * 64 + 10 + c] == 1));
    m.step_with(0, 0);
    assert_eq!(m.reg[0xf], 1);
    assert!(m.display().iter().all(|&p| p == 0));
}

#[test]
fn draw_clips_at_right_edge() {
    let mut m = machine_with(&[0xd0, 0x11]);
    m.i_reg = 0x600;
    m.mem[0x600] = 0xff;
    m.reg[0] = 60;
    m.reg[1] = 0;
    m.step_with(0, 0);
    // columns 60..=63 lit, nothing wraps onto the next row
    assert!((60..64).all(|c| m.screen[c] == 1));
    assert_eq!(m.screen[64], 0);
    assert_eq!(m.screen[65], 0);
}

#[test]
fn draw_wraps_at_bottom_edge() {
    let mut m = machine_with(&[0xd0, 0x12]);
    m.i_reg = 0x600;
    m.mem[0x600] = 0x80;
    m.mem[0x601] = 0x80;
    m.reg[0] = 0;
    m.reg[1] = 31;
    m.step_with(0, 0);
    assert_eq!(m.screen[31 * 64], 1);
    // the second row wrapped back to the top
    assert_eq!(m.screen[0], 1);
}

#[test]
fn draw_clip_quirk_drops_bottom_rows() {
    let mut m = Machine::with_quirks(chip8::machine::Quirks {
        increment_index_after_block: false,
        clip_sprite_rows: true,
    });
    m.load_program(&vec![0xd0, 0x12]).unwrap();
    m.i_reg = 0x600;
    m.mem[0x600] = 0x80;
    m.mem[0x601] = 0x80;
    m.reg[0] = 0;
    m.reg[1] = 31;
    m.step_with(0, 0);
    assert_eq!(m.screen[31 * 64], 1);
    // the second row fell off the bottom instead of wrapping
    assert_eq!(m.screen[0], 0);
}

#[test]
fn coordinates_wrap_before_drawing() {
    let mut m = machine_with(&[0xd0, 0x11]);
    m.i_reg = 0x600;
    m.mem[0x600] = 0x80;
    m.reg[0] = 64 + 2;
    m.reg[1] = 32 + 3;
    m.step_with(0, 0);
    assert_eq!(m.screen[3 * 64 + 2], 1);
}

#[test]
fn timer_tick_decrements_toward_zero() {
    let mut m = Machine::new();
    m.dt = 2;
    m.st = 1;
    m.tick_timers();
    assert_eq!(m.delay_timer(), 1);
    assert_eq!(m.sound_timer(), 0);
    m.tick_timers();
    assert_eq!(m.delay_timer(), 0);
    assert_eq!(m.sound_timer(), 0);
    m.tick_timers();
    assert_eq!(m.delay_timer(), 0);
}

#[test]
fn step_loop_runs_a_small_program_to_completion() {
    // V0 := 1; V1 := 2; V0 += V1; halt on the zero sentinel
    let mut m = machine_with(&[0x60, 0x01, 0x61, 0x02, 0x80, 0x14]);
    let mut steps: u32 = 0;
    while m.is_running() && steps < 100 {
        m.step(0);
        steps += 1;
    }
    assert_eq!(steps, 4);
    assert_eq!(m.reg[0], 3);
    assert!(!m.is_running());
}
