//! Instruction semantics, end to end through `step`.

use chip8::display::{EmuDisplay, Geometry};
use chip8::input::Keypad;
use chip8::memory::{FONT_ADDR, SCRIPT_ADDR};
use chip8::{Emulator, Fault};

fn new_emu(prog: &[u8], ips: bool) -> Emulator {
    let display = EmuDisplay::new(Geometry::Chip8);
    let mut emu = Emulator::new(display, 1428, ips);
    emu.load_font();
    emu.load_script(prog).unwrap();
    emu
}

fn run(emu: &mut Emulator, steps: usize) {
    let keys = Keypad::new();
    for _ in 0..steps {
        emu.step(&keys).unwrap();
    }
}

#[test]
fn sub_sets_flag_on_no_borrow() {
    let mut emu = new_emu(&[0x80, 0x15], true);
    emu.reg[0] = 10;
    emu.reg[1] = 3;
    run(&mut emu, 1);
    assert_eq!(emu.reg[0], 7);
    assert_eq!(emu.reg[0xF], 1);
}

#[test]
fn sub_clears_flag_on_borrow_and_wraps() {
    let mut emu = new_emu(&[0x80, 0x15], true);
    emu.reg[0] = 3;
    emu.reg[1] = 10;
    run(&mut emu, 1);
    assert_eq!(emu.reg[0], 249);
    assert_eq!(emu.reg[0xF], 0);
}

#[test]
fn sub_reversed_direction_targets_y() {
    let mut emu = new_emu(&[0x82, 0x37], true);
    emu.reg[2] = 5;
    emu.reg[3] = 40;
    run(&mut emu, 1);
    assert_eq!(emu.reg[3], 35);
    assert_eq!(emu.reg[0xF], 1);
}

#[test]
fn shift_right_in_place() {
    let mut emu = new_emu(&[0x82, 0x36], true);
    emu.reg[2] = 0b1011;
    emu.reg[3] = 0xFF;
    run(&mut emu, 1);
    assert_eq!(emu.reg[2], 0b101);
    assert_eq!(emu.reg[0xF], 1);
    assert_eq!(emu.reg[3], 0xFF);
}

#[test]
fn shift_right_copies_from_y_without_quirk() {
    let mut emu = new_emu(&[0x82, 0x36], false);
    emu.reg[2] = 0b1011;
    emu.reg[3] = 0b1000_0110;
    run(&mut emu, 1);
    assert_eq!(emu.reg[2], 0b100_0011);
    assert_eq!(emu.reg[0xF], 0);
    assert_eq!(emu.reg[3], 0b1000_0110);
}

#[test]
fn shift_left_both_quirk_modes_same_numeric_result() {
    let mut in_place = new_emu(&[0x82, 0x3E], true);
    in_place.reg[2] = 0b1100_0001;
    let mut copying = new_emu(&[0x82, 0x3E], false);
    copying.reg[2] = 0;
    copying.reg[3] = 0b1100_0001;
    run(&mut in_place, 1);
    run(&mut copying, 1);
    assert_eq!(in_place.reg[2], 0b1000_0010);
    assert_eq!(copying.reg[2], 0b1000_0010);
    assert_eq!(in_place.reg[0xF], 1);
    assert_eq!(copying.reg[0xF], 1);
}

#[test]
fn end_to_end_clear_load_jump() {
    // 00E0 clear, 6A14 load 0x14 into VA, 1200 jump back to the origin.
    let mut emu = new_emu(&[0x00, 0xE0, 0x6A, 0x14, 0x12, 0x00], true);
    run(&mut emu, 3);
    assert_eq!(emu.reg[0xA], 0x14);
    assert_eq!(emu.counter, 0x200);
    for col in 0..64 {
        for row in 0..32 {
            assert!(!emu.display.pixel(col, row));
        }
    }
    // One more tick past the jump re-executes the clear harmlessly.
    run(&mut emu, 1);
    assert_eq!(emu.counter, 0x202);
}

#[test]
fn end_to_end_draws_font_glyph_zero() {
    // A050 points the index at the font origin, D005 draws 5 rows at
    // (V0, V0) = (0, 0).
    let mut emu = new_emu(&[0xA0, 0x50, 0xD0, 0x05], true);
    run(&mut emu, 2);
    assert_eq!(emu.index, FONT_ADDR as u16);
    assert_eq!(emu.reg[0xF], 0);
    let glyph = [0xF0u8, 0x90, 0x90, 0x90, 0xF0];
    for (row, byte) in glyph.iter().enumerate() {
        for col in 0..8 {
            let lit = (byte >> (7 - col)) & 1 == 1;
            assert_eq!(emu.display.pixel(col, row), lit);
        }
    }
}

#[test]
fn wait_key_parks_the_counter_until_a_key_is_down() {
    let mut emu = new_emu(&[0xFA, 0x0A], true);
    let none = Keypad::new();
    for _ in 0..5 {
        emu.step(&none).unwrap();
        assert_eq!(emu.counter, SCRIPT_ADDR);
    }
    let mut pressed = Keypad::new();
    pressed.press(5);
    emu.step(&pressed).unwrap();
    assert_eq!(emu.counter, SCRIPT_ADDR + 2);
    assert_eq!(emu.reg[0xA], 5);
}

#[test]
fn skip_families() {
    // 3XNN taken: V0 == 0.
    let mut emu = new_emu(&[0x30, 0x00], true);
    run(&mut emu, 1);
    assert_eq!(emu.counter, 0x204);
    // 3XNN not taken.
    let mut emu = new_emu(&[0x30, 0x01], true);
    run(&mut emu, 1);
    assert_eq!(emu.counter, 0x202);
    // 4XNN taken.
    let mut emu = new_emu(&[0x40, 0x01], true);
    run(&mut emu, 1);
    assert_eq!(emu.counter, 0x204);
    // 5XY0 taken, 9XY0 not taken on equal registers.
    let mut emu = new_emu(&[0x50, 0x10], true);
    run(&mut emu, 1);
    assert_eq!(emu.counter, 0x204);
    let mut emu = new_emu(&[0x90, 0x10], true);
    run(&mut emu, 1);
    assert_eq!(emu.counter, 0x202);
}

#[test]
fn key_skips_follow_the_keypad() {
    let mut emu = new_emu(&[0xE0, 0x9E], true);
    emu.reg[0] = 7;
    let mut keys = Keypad::new();
    keys.press(7);
    emu.step(&keys).unwrap();
    assert_eq!(emu.counter, 0x204);

    let mut emu = new_emu(&[0xE0, 0xA1], true);
    emu.reg[0] = 7;
    emu.step(&keys).unwrap();
    assert_eq!(emu.counter, 0x202);
    let empty = Keypad::new();
    let mut emu = new_emu(&[0xE0, 0xA1], true);
    emu.reg[0] = 7;
    emu.step(&empty).unwrap();
    assert_eq!(emu.counter, 0x204);
}

#[test]
fn arithmetic_and_logic_family() {
    // 7XNN wraps without touching the flag.
    let mut emu = new_emu(&[0x70, 0xFF], true);
    emu.reg[0] = 2;
    emu.reg[0xF] = 9;
    run(&mut emu, 1);
    assert_eq!(emu.reg[0], 1);
    assert_eq!(emu.reg[0xF], 9);
    // 8XY4 wraps and writes no carry.
    let mut emu = new_emu(&[0x80, 0x14], true);
    emu.reg[0] = 200;
    emu.reg[1] = 100;
    emu.reg[0xF] = 9;
    run(&mut emu, 1);
    assert_eq!(emu.reg[0], 44);
    assert_eq!(emu.reg[0xF], 9);
    // 8XY0 / 8XY1 / 8XY2 / 8XY3.
    let mut emu = new_emu(&[0x80, 0x10, 0x82, 0x31, 0x84, 0x52, 0x86, 0x73], true);
    emu.reg[1] = 0x5A;
    emu.reg[2] = 0b1100;
    emu.reg[3] = 0b1010;
    emu.reg[4] = 0b1100;
    emu.reg[5] = 0b1010;
    emu.reg[6] = 0b1100;
    emu.reg[7] = 0b1010;
    run(&mut emu, 4);
    assert_eq!(emu.reg[0], 0x5A);
    assert_eq!(emu.reg[2], 0b1110);
    assert_eq!(emu.reg[4], 0b1000);
    assert_eq!(emu.reg[6], 0b0110);
}

#[test]
fn jump_with_offset_uses_v0() {
    let mut emu = new_emu(&[0xB2, 0x10], true);
    emu.reg[0] = 4;
    run(&mut emu, 1);
    assert_eq!(emu.counter, 0x214);
}

#[test]
fn random_byte_is_masked() {
    let mut emu = new_emu(&[0xC5, 0x0F, 0xC6, 0x00], true);
    run(&mut emu, 2);
    assert!(emu.reg[5] <= 0x0F);
    assert_eq!(emu.reg[6], 0);
}

#[test]
fn bcd_stores_three_digits() {
    let mut emu = new_emu(&[0xF7, 0x33], true);
    emu.reg[7] = 123;
    emu.index = 0x300;
    run(&mut emu, 1);
    assert_eq!(&emu.memory[0x300..0x303], &[1, 2, 3]);
}

#[test]
fn register_block_store_then_load_round_trips() {
    let mut emu = new_emu(&[0xF3, 0x55, 0xF3, 0x65], true);
    emu.index = 0x400;
    emu.reg[0] = 11;
    emu.reg[1] = 22;
    emu.reg[2] = 33;
    emu.reg[3] = 44;
    run(&mut emu, 1);
    assert_eq!(&emu.memory[0x400..0x404], &[11, 22, 33, 44]);
    emu.reg[0] = 0;
    emu.reg[1] = 0;
    emu.reg[2] = 0;
    emu.reg[3] = 0;
    emu.reg[4] = 99;
    run(&mut emu, 1);
    assert_eq!(emu.reg[0], 11);
    assert_eq!(emu.reg[1], 22);
    assert_eq!(emu.reg[2], 33);
    assert_eq!(emu.reg[3], 44);
    assert_eq!(emu.reg[4], 99);
}

#[test]
fn timer_instructions_set_and_read() {
    let mut emu = new_emu(&[0x63, 0x2A, 0xF3, 0x15, 0xF4, 0x07, 0xF3, 0x18], true);
    run(&mut emu, 4);
    assert_eq!(emu.timer, 0x2A);
    assert_eq!(emu.reg[4], 0x2A);
    assert_eq!(emu.s_timer, 0x2A);
}

#[test]
fn add_index_sets_overflow_flag_past_twelve_bits() {
    let mut emu = new_emu(&[0xF1, 0x1E, 0xF1, 0x1E], true);
    emu.reg[1] = 0xFF;
    emu.index = 0x0F80;
    run(&mut emu, 1);
    assert_eq!(emu.index, 0x107F);
    assert_eq!(emu.reg[0xF], 1);
    let mut emu = new_emu(&[0xF1, 0x1E], true);
    emu.reg[1] = 0x10;
    emu.index = 0x100;
    run(&mut emu, 1);
    assert_eq!(emu.index, 0x110);
    assert_eq!(emu.reg[0xF], 0);
}

#[test]
fn font_lookup_points_at_the_glyph() {
    let mut emu = new_emu(&[0xF2, 0x29], true);
    emu.reg[2] = 0xB;
    run(&mut emu, 1);
    assert_eq!(emu.index as usize, FONT_ADDR + 0xB * 5);
    // Only the low nibble selects the glyph.
    let mut emu = new_emu(&[0xF2, 0x29], true);
    emu.reg[2] = 0xAB;
    run(&mut emu, 1);
    assert_eq!(emu.index as usize, FONT_ADDR + 0xB * 5);
}

#[test]
fn unknown_opcodes_are_skipped_silently() {
    let mut emu = new_emu(&[0x00, 0x00, 0x0A, 0xBC, 0x5A, 0xB1], true);
    run(&mut emu, 3);
    assert_eq!(emu.counter, 0x206);
}

#[test]
fn subroutine_call_and_return() {
    let mut emu = new_emu(&[0x22, 0x04, 0x00, 0x00, 0x00, 0xEE], true);
    run(&mut emu, 1);
    assert_eq!(emu.counter, 0x204);
    assert_eq!(emu.stack, vec![0x202]);
    run(&mut emu, 1);
    assert_eq!(emu.counter, 0x202);
    assert!(emu.stack.is_empty());
}

#[test]
fn return_on_empty_stack_is_a_no_op() {
    let mut emu = new_emu(&[0x00, 0xEE], true);
    run(&mut emu, 1);
    assert_eq!(emu.counter, 0x202);
    assert!(emu.stack.is_empty());
}

#[test]
fn load_font_writes_the_table_once() {
    let emu = new_emu(&[], true);
    assert_eq!(&emu.memory[0x50..0x55], &[0xF0, 0x90, 0x90, 0x90, 0xF0]);
    assert_eq!(&emu.memory[0x9B..0xA0], &[0xF0, 0x80, 0xF0, 0x80, 0x80]);
    assert_eq!(emu.memory[0x4F], 0);
    assert_eq!(emu.memory[0xA0], 0);
}

#[test]
fn set_mem_and_load_mem_move_blocks_through_the_index() {
    let mut emu = new_emu(&[], true);
    emu.index = 0x600;
    emu.set_mem(&[9, 8, 7]).unwrap();
    assert_eq!(&emu.memory[0x600..0x603], &[9, 8, 7]);
    let block = emu.load_mem(2).unwrap();
    assert_eq!(block, vec![9, 8, 7]);
    emu.index = 0xFFE;
    assert!(matches!(
        emu.set_mem(&[1, 2, 3]),
        Err(Fault::MemOutOfBounds { addr: 0xFFE, opcode: 0 })
    ));
    assert!(matches!(emu.load_mem(2), Err(Fault::MemOutOfBounds { addr: 0xFFE, opcode: 0 })));
}
