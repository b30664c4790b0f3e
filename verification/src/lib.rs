//! A CHIP-8 virtual machine: a fetch-decode-execute engine over 4096 bytes of
//! memory, a monochrome XOR-drawing display plane with collision detection,
//! and a dual-clock scheduler that separates the instruction rate from the
//! fixed 60 Hz timer/frame rate.
//!
//! The host (window, keyboard, wall clock) stays outside: the engine consumes
//! plain key states and produces a pixel buffer, one instruction per `step`.

pub mod bits;
pub mod display;
pub mod input;
pub mod memory;
pub mod runner;
pub mod timing;

use vstd::prelude::*;

use crate::display::{EmuDisplay, ScreenView};

verus! {

/// Bytes of addressable memory.
pub const MEM_SIZE: usize = 4096;

/// Greatest call-stack depth; a call at this depth is a fault.
pub const STACK_LIMIT: usize = 16;

/// A fatal condition. Faults halt the instruction clock; the step that
/// raised one leaves the machine unchanged and reports the faulting
/// address and opcode.
#[derive(Clone, Copy, PartialEq, Eq, Structural, Debug)]
pub enum Fault {
    /// The program does not fit between the load origin and the end of
    /// memory.
    ProgramTooLarge { len: usize },
    /// No 2-byte instruction fits at the program counter.
    PcOutOfBounds { pc: usize },
    /// A memory access through the index register reaches past capacity.
    MemOutOfBounds { addr: usize, opcode: u16 },
    /// A subroutine call found the call stack at its depth bound.
    StackOverflow { pc: usize, opcode: u16 },
}

/// The mathematical state of the machine.
#[verifier::ext_equal]
pub struct EmuView {
    pub mem: Seq<u8>,
    pub screen: ScreenView,
    pub index: u16,
    pub pc: int,
    pub stack: Seq<int>,
    pub timer: u8,
    pub s_timer: u8,
    pub reg: Seq<u8>,
    pub tick_us: u16,
    pub ips: bool,
}

impl EmuView {
    /// Well-formedness: full memory and register files, a supported screen,
    /// a bounded stack, and a program counter within the range any
    /// instruction can set.
    pub open spec fn wf(self) -> bool {
        &&& self.mem.len() == MEM_SIZE
        &&& self.reg.len() == 16
        &&& self.screen.wf()
        &&& self.stack.len() <= STACK_LIMIT
        &&& 0 <= self.pc < 8192
        &&& (forall|i: int| 0 <= i < self.stack.len() ==> 0 <= #[trigger] self.stack[i] < 8192)
    }
}

/// The machine: memory, display plane, registers, program counter, call
/// stack, the two 8-bit timers, the instruction-clock period, and the
/// shift-quirk flag.
pub struct Emulator {
    /// 4096 bytes of ram.
    pub memory: Vec<u8>,
    /// The display plane.
    pub display: EmuDisplay,
    /// Index register, used to address memory.
    pub index: u16,
    /// Program counter: address of the next instruction.
    pub counter: usize,
    /// Return addresses of active subroutine calls, most recent last.
    pub stack: Vec<usize>,
    /// Delay timer, decremented at 60 Hz with wraparound.
    pub timer: u8,
    /// Sound timer, decremented at 60 Hz with wraparound.
    pub s_timer: u8,
    /// General purpose registers V0 through VF.
    pub reg: Vec<u8>,
    /// Microseconds per instruction-clock tick (1428 for about 700 steps
    /// per second).
    pub tick_us: u16,
    /// Whether the shift instructions operate in place (the shift quirk).
    pub ips: bool,
}

impl View for Emulator {
    type V = EmuView;

    open spec fn view(&self) -> EmuView {
        EmuView {
            mem: self.memory@,
            screen: self.display@,
            index: self.index,
            pc: self.counter as int,
            stack: Seq::new(self.stack@.len(), |i: int| self.stack@[i] as int),
            timer: self.timer,
            s_timer: self.s_timer,
            reg: self.reg@,
            tick_us: self.tick_us,
            ips: self.ips,
        }
    }
}

impl Emulator {
    /// A fresh machine: zeroed memory and registers, the given display,
    /// both timers at 255, an empty call stack, and the program counter at
    /// the program origin.
    pub fn new(display: EmuDisplay, tick_us: u16, ips: bool) -> (e: Emulator)
        requires
            display@.wf(),
        ensures
            e@.wf(),
            e@.mem == Seq::new(MEM_SIZE as nat, |i: int| 0u8),
            e@.screen == display@,
            e@.index == 0u16,
            e@.pc == crate::memory::SCRIPT_ADDR,
            e@.stack == Seq::<int>::empty(),
            e@.timer == 255u8,
            e@.s_timer == 255u8,
            e@.reg == Seq::new(16, |i: int| 0u8),
            e@.tick_us == tick_us,
            e@.ips == ips,
    {
        let mut memory: Vec<u8> = Vec::new();
        while memory.len() < MEM_SIZE
            invariant
                memory@.len() <= MEM_SIZE,
                forall|i: int| 0 <= i < memory@.len() ==> memory@[i] == 0u8,
            decreases MEM_SIZE - memory@.len(),
        {
            memory.push(0);
        }
        let mut reg: Vec<u8> = Vec::new();
        while reg.len() < 16
            invariant
                reg@.len() <= 16,
                forall|i: int| 0 <= i < reg@.len() ==> reg@[i] == 0u8,
            decreases 16 - reg@.len(),
        {
            reg.push(0);
        }
        let e = Emulator {
            memory,
            display,
            index: 0,
            counter: crate::memory::SCRIPT_ADDR,
            stack: Vec::new(),
            timer: 255,
            s_timer: 255,
            reg,
            tick_us,
            ips,
        };
        proof {
            assert(e@.mem =~= Seq::new(MEM_SIZE as nat, |i: int| 0u8));
            assert(e@.reg =~= Seq::new(16, |i: int| 0u8));
            assert(e@.stack =~= Seq::<int>::empty());
        }
        e
    }

    /// One 60 Hz frame-clock tick on the timers: both decrement with
    /// wraparound, and nothing else changes.
    pub fn frame_tick(&mut self)
        requires
            old(self)@.wf(),
        ensures
            final(self)@.wf(),
            final(self)@ == (EmuView {
                timer: vstd::wrapping::u8_specs::wrapping_sub(old(self)@.timer, 1),
                s_timer: vstd::wrapping::u8_specs::wrapping_sub(old(self)@.s_timer, 1),
                ..old(self)@
            }),
    {
        self.timer = self.timer.wrapping_sub(1);
        self.s_timer = self.s_timer.wrapping_sub(1);
        proof {
            assert(self@ =~= (EmuView {
                timer: vstd::wrapping::u8_specs::wrapping_sub(old(self)@.timer, 1),
                s_timer: vstd::wrapping::u8_specs::wrapping_sub(old(self)@.s_timer, 1),
                ..old(self)@
            }));
        }
    }
}

} // verus!
