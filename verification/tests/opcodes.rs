//! Per-opcode behavior, driven through the public step interface.

use chip8::exec::StepResult;
use chip8::machine::{Machine, Quirks};

/// A fresh machine with `program` loaded at 0x200.
fn machine_with(program: &[u8]) -> Machine {
    let mut m = Machine::new();
    m.load_program(&program.to_vec()).unwrap();
    m
}

#[test]
fn fetch_is_big_endian() {
    let m = machine_with(&[0x6a, 0x3c]);
    assert_eq!(m.fetch_word(), 0x6a3c);
}

#[test]
fn load_immediate_sets_register() {
    let mut m = machine_with(&[0x60, 0x05]);
    let r = m.step_with(0, 0);
    assert_eq!(r, StepResult::Continued);
    assert_eq!(m.reg[0], 5);
    assert_eq!(m.pc, 0x202);
}

#[test]
fn load_register_copies_value() {
    let mut m = machine_with(&[0x81, 0x30]);
    m.reg[3] = 0xab;
    m.step_with(0, 0);
    assert_eq!(m.reg[1], 0xab);
}

#[test]
fn add_with_carry_wraps_and_sets_flag() {
    let mut m = machine_with(&[0x80, 0x14]);
    m.reg[0] = 200;
    m.reg[1] = 100;
    m.step_with(0, 0);
    assert_eq!(m.reg[0], 44);
    assert_eq!(m.reg[0xf], 1);
}

#[test]
fn add_without_carry_clears_flag() {
    let mut m = machine_with(&[0x80, 0x14]);
    m.reg[0] = 3;
    m.reg[1] = 4;
    m.reg[0xf] = 1;
    m.step_with(0, 0);
    assert_eq!(m.reg[0], 7);
    assert_eq!(m.reg[0xf], 0);
}

#[test]
fn add_immediate_has_no_flag_effect() {
    let mut m = machine_with(&[0x70, 0xff]);
    m.reg[0] = 2;
    m.reg[0xf] = 0;
    m.step_with(0, 0);
    assert_eq!(m.reg[0], 1);
    assert_eq!(m.reg[0xf], 0);
}

#[test]
fn sub_no_borrow_sets_flag() {
    let mut m = machine_with(&[0x80, 0x15]);
    m.reg[0] = 5;
    m.reg[1] = 3;
    m.step_with(0, 0);
    assert_eq!(m.reg[0], 2);
    assert_eq!(m.reg[0xf], 1);
}

#[test]
fn sub_with_borrow_wraps_and_clears_flag() {
    let mut m = machine_with(&[0x80, 0x15]);
    m.reg[0] = 3;
    m.reg[1] = 5;
    m.step_with(0, 0);
    assert_eq!(m.reg[0], 254);
    assert_eq!(m.reg[0xf], 0);
}

#[test]
fn subn_reverses_operands() {
    let mut m = machine_with(&[0x80, 0x17]);
    m.reg[0] = 3;
    m.reg[1] = 5;
    m.step_with(0, 0);
    assert_eq!(m.reg[0], 2);
    assert_eq!(m.reg[0xf], 1);
}

#[test]
fn bitwise_or_and_xor() {
    let mut m = machine_with(&[0x80, 0x11, 0x80, 0x22, 0x80, 0x33]);
    m.reg[0] = 0b1100;
    m.reg[1] = 0b1010;
    m.reg[2] = 0b0110;
    m.reg[3] = 0b0101;
    m.step_with(0, 0);
    assert_eq!(m.reg[0], 0b1110);
    m.step_with(0, 0);
    assert_eq!(m.reg[0], 0b0110);
    m.step_with(0, 0);
    assert_eq!(m.reg[0], 0b0011);
}

#[test]
fn shift_right_reports_low_bit() {
    let mut m = machine_with(&[0x80, 0x06]);
    m.reg[0] = 5;
    m.step_with(0, 0);
    assert_eq!(m.reg[0], 2);
    assert_eq!(m.reg[0xf], 1);
}

#[test]
fn shift_right_even_value_clears_flag() {
    let mut m = machine_with(&[0x80, 0x06]);
    m.reg[0] = 8;
    m.reg[0xf] = 1;
    m.step_with(0, 0);
    assert_eq!(m.reg[0], 4);
    assert_eq!(m.reg[0xf], 0);
}

#[test]
fn shift_left_reports_high_bit() {
    let mut m = machine_with(&[0x80, 0x0e]);
    m.reg[0] = 0x81;
    m.step_with(0, 0);
    assert_eq!(m.reg[0], 0x02);
    assert_eq!(m.reg[0xf], 1);
}

#[test]
fn jump_sets_pc() {
    let mut m = machine_with(&[0x1a, 0xbc]);
    m.step_with(0, 0);
    assert_eq!(m.pc, 0xabc);
}

#[test]
fn jump_v0_adds_register() {
    let mut m = machine_with(&[0xb3, 0x00]);
    m.reg[0] = 4;
    m.step_with(0, 0);
    assert_eq!(m.pc, 0x304);
}

#[test]
fn skip_if_equal_immediate() {
    let mut m = machine_with(&[0x30, 0x07]);
    m.reg[0] = 7;
    m.step_with(0, 0);
    assert_eq!(m.pc, 0x204);
}

#[test]
fn no_skip_if_not_equal_immediate() {
    let mut m = machine_with(&[0x30, 0x07]);
    m.reg[0] = 8;
    m.step_with(0, 0);
    assert_eq!(m.pc, 0x202);
}

#[test]
fn skip_if_not_equal_registers() {
    let mut m = machine_with(&[0x90, 0x10]);
    m.reg[0] = 1;
    m.reg[1] = 2;
    m.step_with(0, 0);
    assert_eq!(m.pc, 0x204);
}

#[test]
fn set_index_register() {
    let mut m = machine_with(&[0xa1, 0x23]);
    m.step_with(0, 0);
    assert_eq!(m.i_reg, 0x123);
}

#[test]
fn add_to_index_register() {
    let mut m = machine_with(&[0xf0, 0x1e]);
    m.i_reg = 0x100;
    m.reg[0] = 0x20;
    m.step_with(0, 0);
    assert_eq!(m.i_reg, 0x120);
}

#[test]
fn font_address_is_five_times_digit() {
    let mut m = machine_with(&[0xf0, 0x29]);
    m.reg[0] = 0xa;
    m.step_with(0, 0);
    assert_eq!(m.i_reg, 50);
}

#[test]
fn timers_load_and_read() {
    // V0 := 0x30; DT := V0; ST := V0; V1 := DT
    let mut m = machine_with(&[0x60, 0x30, 0xf0, 0x15, 0xf0, 0x18, 0xf1, 0x07]);
    m.step_with(0, 0);
    m.step_with(0, 0);
    m.step_with(0, 0);
    m.step_with(0, 0);
    assert_eq!(m.delay_timer(), 0x30);
    assert_eq!(m.sound_timer(), 0x30);
    assert_eq!(m.reg[1], 0x30);
}

#[test]
fn random_is_masked() {
    let mut m = machine_with(&[0xc0, 0x0f]);
    m.step_with(0, 0xab);
    assert_eq!(m.reg[0], 0x0b);
}

#[test]
fn bcd_store_writes_three_digits() {
    let mut m = machine_with(&[0xf0, 0x33]);
    m.reg[0] = 234;
    m.i_reg = 0x400;
    m.step_with(0, 0);
    assert_eq!(m.mem[0x400], 2);
    assert_eq!(m.mem[0x401], 3);
    assert_eq!(m.mem[0x402], 4);
    let rebuilt: u16 = 100 * m.mem[0x400] as u16 + 10 * m.mem[0x401] as u16 + m.mem[0x402] as u16;
    assert_eq!(rebuilt, 234);
}

#[test]
fn bcd_round_trips_every_byte() {
    for v in 0..=255u16 {
        let mut m = machine_with(&[0xf0, 0x33]);
        m.reg[0] = v as u8;
        m.i_reg = 0x400;
        m.step_with(0, 0);
        let rebuilt: u16 =
            100 * m.mem[0x400] as u16 + 10 * m.mem[0x401] as u16 + m.mem[0x402] as u16;
        assert_eq!(rebuilt, v);
    }
}

#[test]
fn store_registers_block() {
    let mut m = machine_with(&[0xf2, 0x55]);
    m.reg[0] = 10;
    m.reg[1] = 20;
    m.reg[2] = 30;
    m.i_reg = 0x500;
    m.step_with(0, 0);
    assert_eq!(m.mem[0x500], 10);
    assert_eq!(m.mem[0x501], 20);
    assert_eq!(m.mem[0x502], 30);
    // baseline quirk choice: the index register is unchanged
    assert_eq!(m.i_reg, 0x500);
}

#[test]
fn load_registers_block() {
    let mut m = machine_with(&[0xf2, 0x65]);
    m.mem[0x500] = 11;
    m.mem[0x501] = 22;
    m.mem[0x502] = 33;
    m.i_reg = 0x500;
    m.step_with(0, 0);
    assert_eq!(m.reg[0], 11);
    assert_eq!(m.reg[1], 22);
    assert_eq!(m.reg[2], 33);
    assert_eq!(m.i_reg, 0x500);
}

#[test]
fn block_transfer_increment_quirk_advances_index() {
    let mut m = Machine::with_quirks(Quirks {
        increment_index_after_block: true,
        clip_sprite_rows: false,
    });
    m.load_program(&vec![0xf2, 0x55]).unwrap();
    m.i_reg = 0x500;
    m.step_with(0, 0);
    assert_eq!(m.i_reg, 0x503);
}

#[test]
fn skip_if_key_down() {
    let mut m = machine_with(&[0xe0, 0x9e]);
    m.reg[0] = 5;
    m.step_with(1 << 5, 0);
    assert_eq!(m.pc, 0x204);
}

#[test]
fn no_skip_if_key_up() {
    let mut m = machine_with(&[0xe0, 0x9e]);
    m.reg[0] = 5;
    m.step_with(1 << 6, 0);
    assert_eq!(m.pc, 0x202);
}

#[test]
fn skip_if_key_not_down() {
    let mut m = machine_with(&[0xe0, 0xa1]);
    m.reg[0] = 5;
    m.step_with(0, 0);
    assert_eq!(m.pc, 0x204);
}

#[test]
fn key_wait_stores_lowest_key() {
    let mut m = machine_with(&[0xf3, 0x0a]);
    m.step_with((1 << 9) | (1 << 4), 0);
    assert_eq!(m.reg[3], 4);
    assert_eq!(m.pc, 0x202);
}

#[test]
fn key_helpers_match_snapshot() {
    let keys: u16 = (1 << 2) | (1 << 11);
    assert!(chip8::exec::key_down(keys, 2));
    assert!(chip8::exec::key_down(keys, 11));
    assert!(!chip8::exec::key_down(keys, 3));
    assert_eq!(chip8::exec::first_key(keys), Some(2));
    assert_eq!(chip8::exec::first_key(0), None);
}
