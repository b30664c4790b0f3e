//! Memory layout: the reserved font-table region, the program origin, and
//! the block transfer helpers the engine uses through the index register.

use vstd::prelude::*;

use crate::{Emulator, EmuView, Fault, MEM_SIZE};

verus! {

/// Address of the 80-byte font table.
pub const FONT_ADDR: usize = 0x50;

/// Bytes in the font table: 16 glyphs of 5 rows each.
pub const FONT_SIZE: usize = 80;

/// Address where programs are loaded and where execution starts.
pub const SCRIPT_ADDR: usize = 0x200;

/// The font table: one 5-row bit pattern per hexadecimal digit 0 through F.
pub open spec fn font_seq() -> Seq<u8> {
    seq![
        0xF0u8, 0x90, 0x90, 0x90, 0xF0,  // 0
        0x20, 0x60, 0x20, 0x20, 0x70,  // 1
        0xF0, 0x10, 0xF0, 0x80, 0xF0,  // 2
        0xF0, 0x10, 0xF0, 0x10, 0xF0,  // 3
        0x90, 0x90, 0xF0, 0x10, 0x10,  // 4
        0xF0, 0x80, 0xF0, 0x10, 0xF0,  // 5
        0xF0, 0x80, 0xF0, 0x90, 0xF0,  // 6
        0xF0, 0x10, 0x20, 0x40, 0x40,  // 7
        0xF0, 0x90, 0xF0, 0x90, 0xF0,  // 8
        0xF0, 0x90, 0xF0, 0x10, 0xF0,  // 9
        0xF0, 0x90, 0xF0, 0x90, 0x90,  // A
        0xE0, 0x90, 0xE0, 0x90, 0xE0,  // B
        0xF0, 0x80, 0x80, 0x80, 0xF0,  // C
        0xE0, 0x90, 0x90, 0x90, 0xE0,  // D
        0xF0, 0x80, 0xF0, 0x80, 0xF0,  // E
        0xF0, 0x80, 0xF0, 0x80, 0x80,  // F
    ]
}

/// `mem` with `block` written over it starting at address `at`.
pub open spec fn write_block(mem: Seq<u8>, at: int, block: Seq<u8>) -> Seq<u8> {
    Seq::new(
        mem.len(),
        |i: int|
            if at <= i < at + block.len() {
                block[i - at]
            } else {
                mem[i]
            },
    )
}

impl Emulator {
    /// Writes the font table at its reserved offset. Everything else is
    /// unchanged.
    pub fn load_font(&mut self)
        requires
            old(self)@.wf(),
        ensures
            final(self)@.wf(),
            final(self)@ == (EmuView {
                mem: write_block(old(self)@.mem, FONT_ADDR as int, font_seq()),
                ..old(self)@
            }),
    {
        let font: Vec<u8> = vec![
            0xF0, 0x90, 0x90, 0x90, 0xF0,  // 0
            0x20, 0x60, 0x20, 0x20, 0x70,  // 1
            0xF0, 0x10, 0xF0, 0x80, 0xF0,  // 2
            0xF0, 0x10, 0xF0, 0x10, 0xF0,  // 3
            0x90, 0x90, 0xF0, 0x10, 0x10,  // 4
            0xF0, 0x80, 0xF0, 0x10, 0xF0,  // 5
            0xF0, 0x80, 0xF0, 0x90, 0xF0,  // 6
            0xF0, 0x10, 0x20, 0x40, 0x40,  // 7
            0xF0, 0x90, 0xF0, 0x90, 0xF0,  // 8
            0xF0, 0x90, 0xF0, 0x10, 0xF0,  // 9
            0xF0, 0x90, 0xF0, 0x90, 0x90,  // A
            0xE0, 0x90, 0xE0, 0x90, 0xE0,  // B
            0xF0, 0x80, 0x80, 0x80, 0xF0,  // C
            0xE0, 0x90, 0x90, 0x90, 0xE0,  // D
            0xF0, 0x80, 0xF0, 0x80, 0xF0,  // E
            0xF0, 0x80, 0xF0, 0x80, 0x80,  // F
        ];
        proof {
            assert(font@ =~= font_seq());
        }
        let mut i: usize = 0;
        while i < FONT_SIZE
            invariant
                old(self)@.wf(),
                font@ == font_seq(),
                0 <= i <= FONT_SIZE,
                self.display == old(self).display,
                self.index == old(self).index,
                self.counter == old(self).counter,
                self.stack == old(self).stack,
                self.timer == old(self).timer,
                self.s_timer == old(self).s_timer,
                self.reg == old(self).reg,
                self.tick_us == old(self).tick_us,
                self.ips == old(self).ips,
                self.memory@.len() == MEM_SIZE,
                forall|k: int|
                    0 <= k < MEM_SIZE ==> self.memory@[k] == (if FONT_ADDR <= k < FONT_ADDR
                        + i {
                        font_seq()[k - FONT_ADDR]
                    } else {
                        old(self)@.mem[k]
                    }),
            decreases FONT_SIZE - i,
        {
            self.memory[FONT_ADDR + i] = font[i];
            i = i + 1;
        }
        proof {
            assert(self@.mem =~= write_block(old(self)@.mem, FONT_ADDR as int, font_seq()));
            assert(self@ =~= (EmuView {
                mem: write_block(old(self)@.mem, FONT_ADDR as int, font_seq()),
                ..old(self)@
            }));
        }
    }

    /// Loads a program at the program origin. Succeeds exactly when the
    /// program fits below the end of memory; an oversized program is
    /// rejected before anything is written.
    pub fn load_script(&mut self, script: &[u8]) -> (r: Result<(), Fault>)
        requires
            old(self)@.wf(),
        ensures
            final(self)@.wf(),
            match r {
                Ok(()) => script@.len() + SCRIPT_ADDR <= MEM_SIZE && final(self)@ == (EmuView {
                    mem: write_block(old(self)@.mem, SCRIPT_ADDR as int, script@),
                    ..old(self)@
                }),
                Err(f) => script@.len() + SCRIPT_ADDR > MEM_SIZE && f == (Fault::ProgramTooLarge {
                    len: script.len(),
                }) && final(self)@ == old(self)@,
            },
    {
        if script.len() > MEM_SIZE - SCRIPT_ADDR {
            return Err(Fault::ProgramTooLarge { len: script.len() });
        }
        let mut i: usize = 0;
        while i < script.len()
            invariant
                old(self)@.wf(),
                script@.len() + SCRIPT_ADDR <= MEM_SIZE,
                0 <= i <= script@.len(),
                self.display == old(self).display,
                self.index == old(self).index,
                self.counter == old(self).counter,
                self.stack == old(self).stack,
                self.timer == old(self).timer,
                self.s_timer == old(self).s_timer,
                self.reg == old(self).reg,
                self.tick_us == old(self).tick_us,
                self.ips == old(self).ips,
                self.memory@.len() == MEM_SIZE,
                forall|k: int|
                    0 <= k < MEM_SIZE ==> self.memory@[k] == (if SCRIPT_ADDR <= k < SCRIPT_ADDR
                        + i {
                        script@[k - SCRIPT_ADDR]
                    } else {
                        old(self)@.mem[k]
                    }),
            decreases script@.len() - i,
        {
            self.memory[SCRIPT_ADDR + i] = script[i];
            i = i + 1;
        }
        proof {
            assert(self@.mem =~= write_block(old(self)@.mem, SCRIPT_ADDR as int, script@));
            assert(self@ =~= (EmuView {
                mem: write_block(old(self)@.mem, SCRIPT_ADDR as int, script@),
                ..old(self)@
            }));
        }
        Ok(())
    }

    /// Writes a block of bytes at the current index register. Succeeds
    /// exactly when the block ends at or before the end of memory; an
    /// out-of-range write is rejected before anything is written.
    pub fn set_mem(&mut self, block: &[u8]) -> (r: Result<(), Fault>)
        requires
            old(self)@.wf(),
        ensures
            final(self)@.wf(),
            match r {
                Ok(()) => old(self)@.index + block@.len() <= MEM_SIZE && final(self)@ == (EmuView {
                    mem: write_block(old(self)@.mem, old(self)@.index as int, block@),
                    ..old(self)@
                }),
                Err(f) => old(self)@.index + block@.len() > MEM_SIZE && f == (Fault::MemOutOfBounds {
                    addr: old(self).index as usize,
                    opcode: 0u16,
                }) && final(self)@ == old(self)@,
            },
    {
        let at = self.index as usize;
        if block.len() > MEM_SIZE || at > MEM_SIZE - block.len() {
            return Err(Fault::MemOutOfBounds { addr: at, opcode: 0 });
        }
        let mut i: usize = 0;
        while i < block.len()
            invariant
                old(self)@.wf(),
                at == old(self)@.index as int,
                at + block@.len() <= MEM_SIZE,
                0 <= i <= block@.len(),
                self.display == old(self).display,
                self.index == old(self).index,
                self.counter == old(self).counter,
                self.stack == old(self).stack,
                self.timer == old(self).timer,
                self.s_timer == old(self).s_timer,
                self.reg == old(self).reg,
                self.tick_us == old(self).tick_us,
                self.ips == old(self).ips,
                self.memory@.len() == MEM_SIZE,
                forall|k: int|
                    0 <= k < MEM_SIZE ==> self.memory@[k] == (if at <= k < at + i {
                        block@[k - at]
                    } else {
                        old(self)@.mem[k]
                    }),
            decreases block@.len() - i,
        {
            self.memory[at + i] = block[i];
            i = i + 1;
        }
        proof {
            assert(self@.mem =~= write_block(old(self)@.mem, old(self)@.index as int, block@));
            assert(self@ =~= (EmuView {
                mem: write_block(old(self)@.mem, old(self)@.index as int, block@),
                ..old(self)@
            }));
        }
        Ok(())
    }

    /// Reads the `len + 1` bytes at the current index register. Succeeds
    /// exactly when the last byte lies within memory.
    pub fn load_mem(&self, len: usize) -> (r: Result<Vec<u8>, Fault>)
        requires
            self@.wf(),
        ensures
            match r {
                Ok(bytes) => self@.index + len < MEM_SIZE && bytes@ == self@.mem.subrange(
                    self@.index as int,
                    self@.index + len + 1,
                ),
                Err(f) => self@.index + len >= MEM_SIZE && f == (Fault::MemOutOfBounds {
                    addr: self.index as usize,
                    opcode: 0u16,
                }),
            },
    {
        let at = self.index as usize;
        if len >= MEM_SIZE || at >= MEM_SIZE - len {
            return Err(Fault::MemOutOfBounds { addr: at, opcode: 0 });
        }
        let mut out: Vec<u8> = Vec::new();
        let mut i: usize = 0;
        while i <= len
            invariant
                self@.wf(),
                at == self@.index as int,
                at + len < MEM_SIZE,
                0 <= i <= len + 1,
                out@.len() == i,
                forall|k: int| 0 <= k < i ==> out@[k] == self@.mem[at + k],
            decreases len + 1 - i,
        {
            out.push(self.memory[at + i]);
            i = i + 1;
        }
        proof {
            assert(out@ =~= self@.mem.subrange(self@.index as int, self@.index + len + 1));
        }
        Ok(out)
    }
}

} // verus!
