//! Fatal conditions, and the two independent clocks of the coordinator.

use chip8::display::{EmuDisplay, Geometry};
use chip8::input::Keypad;
use chip8::timing::{Timing, FRAME_US};
use chip8::{Emulator, Fault};

fn new_emu(prog: &[u8]) -> Emulator {
    let display = EmuDisplay::new(Geometry::Chip8);
    let mut emu = Emulator::new(display, 1428, true);
    emu.load_font();
    emu.load_script(prog).unwrap();
    emu
}

#[test]
fn oversized_program_is_rejected_before_loading() {
    let display = EmuDisplay::new(Geometry::Chip8);
    let mut emu = Emulator::new(display, 1428, true);
    let big = vec![0u8; 3585];
    assert_eq!(emu.load_script(&big), Err(Fault::ProgramTooLarge { len: 3585 }));
    assert!(emu.memory.iter().all(|&b| b == 0));
    let just_fits = vec![0u8; 3584];
    assert_eq!(emu.load_script(&just_fits), Ok(()));
}

#[test]
fn counter_past_memory_is_a_fault() {
    let mut emu = new_emu(&[]);
    emu.counter = 4095;
    let keys = Keypad::new();
    assert_eq!(emu.step(&keys), Err(Fault::PcOutOfBounds { pc: 4095 }));
    assert_eq!(emu.counter, 4095);
}

#[test]
fn draw_past_memory_is_a_fault_with_the_opcode() {
    let mut emu = new_emu(&[0xD0, 0x02]);
    emu.index = 4095;
    let keys = Keypad::new();
    assert_eq!(
        emu.step(&keys),
        Err(Fault::MemOutOfBounds { addr: 4095, opcode: 0xD002 })
    );
    assert_eq!(emu.counter, 0x200);
}

#[test]
fn bcd_past_memory_is_a_fault() {
    let mut emu = new_emu(&[0xF0, 0x33]);
    emu.index = 4094;
    let keys = Keypad::new();
    assert_eq!(
        emu.step(&keys),
        Err(Fault::MemOutOfBounds { addr: 4094, opcode: 0xF033 })
    );
}

#[test]
fn register_store_and_load_past_memory_fault() {
    let mut emu = new_emu(&[0xF3, 0x55]);
    emu.index = 4093;
    let keys = Keypad::new();
    assert_eq!(
        emu.step(&keys),
        Err(Fault::MemOutOfBounds { addr: 4093, opcode: 0xF355 })
    );
    let mut emu = new_emu(&[0xF3, 0x65]);
    emu.index = 4093;
    assert_eq!(
        emu.step(&keys),
        Err(Fault::MemOutOfBounds { addr: 4093, opcode: 0xF365 })
    );
}

#[test]
fn seventeenth_nested_call_overflows_the_stack() {
    // 2200: call the instruction's own address, forever deeper.
    let mut emu = new_emu(&[0x22, 0x00]);
    let keys = Keypad::new();
    for depth in 1..=16 {
        emu.step(&keys).unwrap();
        assert_eq!(emu.stack.len(), depth);
    }
    assert_eq!(
        emu.step(&keys),
        Err(Fault::StackOverflow { pc: 0x200, opcode: 0x2200 })
    );
    assert_eq!(emu.stack.len(), 16);
    assert_eq!(emu.counter, 0x200);
}

#[test]
fn frame_clock_holds_sixty_hertz_with_a_slow_instruction_clock() {
    // One instruction per second; the frame clock must still fire 60
    // times over one simulated second.
    let mut t = Timing::new(1_000_000, 0);
    let mut frames: u32 = 0;
    let mut instrs: u32 = 0;
    for now in 0..=1_000_000u64 {
        let (frame, instr) = t.poll(now);
        if frame {
            frames += 1;
        }
        if instr {
            instrs += 1;
        }
    }
    assert_eq!(frames, 60);
    assert_eq!(instrs, 1);
}

#[test]
fn fast_instruction_clock_leaves_the_frame_rate_unchanged() {
    let mut t = Timing::new(100, 0);
    let mut frames: u32 = 0;
    let mut instrs: u32 = 0;
    for step in 0..=10_000u64 {
        let now = step * 100;
        let (frame, instr) = t.poll(now);
        if frame {
            frames += 1;
        }
        if instr {
            instrs += 1;
        }
    }
    assert_eq!(frames, 59);
    assert_eq!(instrs, 10_000);
}

#[test]
fn poll_reports_each_clock_exactly_when_due() {
    let mut t = Timing::new(1000, 0);
    assert_eq!(t.poll(999), (false, false));
    assert_eq!(t.poll(1000), (false, true));
    assert_eq!(t.poll(1500), (false, false));
    assert_eq!(t.poll(FRAME_US), (true, true));
    assert_eq!(t.poll(FRAME_US + 1), (false, false));
    assert_eq!(t.poll(FRAME_US + 1000), (false, true));
    assert_eq!(t.poll(2 * FRAME_US), (true, true));
}

#[test]
fn frame_tick_wraps_both_timers() {
    let mut emu = new_emu(&[]);
    assert_eq!(emu.timer, 255);
    emu.frame_tick();
    assert_eq!(emu.timer, 254);
    assert_eq!(emu.s_timer, 254);
    emu.timer = 0;
    emu.frame_tick();
    assert_eq!(emu.timer, 255);
}

#[test]
fn keypad_scans_report_the_lowest_pressed_code() {
    let mut k = Keypad::new();
    assert_eq!(k.any_down(), None);
    assert!(!k.is_down(3));
    k.press(9);
    k.press(3);
    assert!(k.is_down(3));
    assert!(k.is_down(9));
    assert!(!k.is_down(4));
    assert!(!k.is_down(200));
    assert_eq!(k.any_down(), Some(3));
    let k = Keypad::from_mask(0x8000);
    assert_eq!(k.any_down(), Some(15));
}
