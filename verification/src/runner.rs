//! The fetch-decode-execute engine: one instruction per `step`, with the
//! exact bit-level semantics of every opcode family stated by `spec_step`
//! and the fatal boundary conditions by `spec_fault`.

use vstd::prelude::*;

use crate::display::{spec_cleared, spec_draw, spec_draw_hit};
use crate::input::{key_down, spec_any_down, Keypad};
use crate::memory::{write_block, FONT_ADDR};
use crate::{Emulator, EmuView, Fault, MEM_SIZE, STACK_LIMIT};

verus! {

/// A decoded instruction: the four nibbles split into the operand groups
/// the instruction format defines — register indices `x` and `y`, an
/// immediate nibble, an immediate byte, and a 12-bit address.
pub enum Instr {
    /// 00E0: clear the screen.
    Cls,
    /// 00EE: return from a subroutine; no-op on an empty stack.
    Ret,
    /// 1NNN: jump.
    Jump(int),
    /// 2NNN: call a subroutine.
    Call(int),
    /// 3XNN: skip the next instruction if VX equals the byte.
    SkipEqImm(int, u8),
    /// 4XNN: skip the next instruction if VX differs from the byte.
    SkipNeImm(int, u8),
    /// 5XY0: skip the next instruction if VX equals VY.
    SkipEqReg(int, int),
    /// 6XNN: set VX to the byte.
    SetImm(int, u8),
    /// 7XNN: add the byte to VX, wrapping, no flag.
    AddImm(int, u8),
    /// 8XY0: copy VY into VX.
    Copy(int, int),
    /// 8XY1: VX |= VY.
    Or(int, int),
    /// 8XY2: VX &= VY.
    And(int, int),
    /// 8XY3: VX ^= VY.
    Xor(int, int),
    /// 8XY4: VX += VY, wrapping, no carry flag.
    AddReg(int, int),
    /// 8XY5: VX -= VY with the no-borrow flag in VF.
    SubXy(int, int),
    /// 8XY6: shift right with the shifted-out bit in VF.
    ShiftRight(int, int),
    /// 8XY7: VY -= VX with the no-borrow flag in VF.
    SubYx(int, int),
    /// 8XYE: shift left with the shifted-out bit in VF.
    ShiftLeft(int, int),
    /// 9XY0: skip the next instruction if VX differs from VY.
    SkipNeReg(int, int),
    /// ANNN: set the index register.
    SetIndex(int),
    /// BNNN: jump to the address plus V0.
    JumpV0(int),
    /// CXNN: a random byte masked by the byte, into VX.
    Rand(int, u8),
    /// DXYN: draw an N-row sprite from the index register at (VX, VY).
    Draw(int, int, u8),
    /// EX9E: skip the next instruction if the key coded in VX is down.
    SkipKey(int),
    /// EXA1: skip the next instruction if the key coded in VX is up.
    SkipNoKey(int),
    /// FX07: read the delay timer into VX.
    ReadDelay(int),
    /// FX0A: wait for a key; re-executes until one is down.
    WaitKey(int),
    /// FX15: set the delay timer from VX.
    SetDelay(int),
    /// FX18: set the sound timer from VX.
    SetSound(int),
    /// FX1E: add VX to the index with the 12-bit overflow flag in VF.
    AddIndex(int),
    /// FX29: point the index at the font glyph coded in VX.
    FontChar(int),
    /// FX33: store the decimal digits of VX at the index register.
    Bcd(int),
    /// FX55: store V0 through VX at the index register.
    StoreRegs(int),
    /// FX65: load V0 through VX from the index register.
    LoadRegs(int),
    /// Any other pattern: silently skipped, never fatal.
    Unknown,
}

/// Splits an instruction's two bytes into nibbles and selects the
/// operation, exactly as the instruction format defines it.
pub open spec fn decode(b1: u8, b2: u8) -> Instr {
    let n1 = (b1 & 0xF0) >> 4u8;
    let n2 = b1 & 0x0F;
    let n3 = (b2 & 0xF0) >> 4u8;
    let n4 = b2 & 0x0F;
    let x = n2 as int;
    let y = n3 as int;
    let nnn = (n2 as int) * 256 + b2 as int;
    if n1 == 0x0 && n2 == 0x0 && n3 == 0xE && n4 == 0x0 {
        Instr::Cls
    } else if n1 == 0x0 && n2 == 0x0 && n3 == 0xE && n4 == 0xE {
        Instr::Ret
    } else if n1 == 0x1 {
        Instr::Jump(nnn)
    } else if n1 == 0x2 {
        Instr::Call(nnn)
    } else if n1 == 0x3 {
        Instr::SkipEqImm(x, b2)
    } else if n1 == 0x4 {
        Instr::SkipNeImm(x, b2)
    } else if n1 == 0x5 && n4 == 0x0 {
        Instr::SkipEqReg(x, y)
    } else if n1 == 0x6 {
        Instr::SetImm(x, b2)
    } else if n1 == 0x7 {
        Instr::AddImm(x, b2)
    } else if n1 == 0x8 && n4 == 0x0 {
        Instr::Copy(x, y)
    } else if n1 == 0x8 && n4 == 0x1 {
        Instr::Or(x, y)
    } else if n1 == 0x8 && n4 == 0x2 {
        Instr::And(x, y)
    } else if n1 == 0x8 && n4 == 0x3 {
        Instr::Xor(x, y)
    } else if n1 == 0x8 && n4 == 0x4 {
        Instr::AddReg(x, y)
    } else if n1 == 0x8 && n4 == 0x5 {
        Instr::SubXy(x, y)
    } else if n1 == 0x8 && n4 == 0x6 {
        Instr::ShiftRight(x, y)
    } else if n1 == 0x8 && n4 == 0x7 {
        Instr::SubYx(x, y)
    } else if n1 == 0x8 && n4 == 0xE {
        Instr::ShiftLeft(x, y)
    } else if n1 == 0x9 && n4 == 0x0 {
        Instr::SkipNeReg(x, y)
    } else if n1 == 0xA {
        Instr::SetIndex(nnn)
    } else if n1 == 0xB {
        Instr::JumpV0(nnn)
    } else if n1 == 0xC {
        Instr::Rand(x, b2)
    } else if n1 == 0xD {
        Instr::Draw(x, y, n4)
    } else if n1 == 0xE && n3 == 0x9 && n4 == 0xE {
        Instr::SkipKey(x)
    } else if n1 == 0xE && n3 == 0xA && n4 == 0x1 {
        Instr::SkipNoKey(x)
    } else if n1 == 0xF && n3 == 0x0 && n4 == 0x7 {
        Instr::ReadDelay(x)
    } else if n1 == 0xF && n3 == 0x0 && n4 == 0xA {
        Instr::WaitKey(x)
    } else if n1 == 0xF && n3 == 0x1 && n4 == 0x5 {
        Instr::SetDelay(x)
    } else if n1 == 0xF && n3 == 0x1 && n4 == 0x8 {
        Instr::SetSound(x)
    } else if n1 == 0xF && n3 == 0x1 && n4 == 0xE {
        Instr::AddIndex(x)
    } else if n1 == 0xF && n3 == 0x2 && n4 == 0x9 {
        Instr::FontChar(x)
    } else if n1 == 0xF && n3 == 0x3 && n4 == 0x3 {
        Instr::Bcd(x)
    } else if n1 == 0xF && n3 == 0x5 && n4 == 0x5 {
        Instr::StoreRegs(x)
    } else if n1 == 0xF && n3 == 0x6 && n4 == 0x5 {
        Instr::LoadRegs(x)
    } else {
        Instr::Unknown
    }
}

/// The register file after a borrow-flagged subtract toward X (8XY5): VF
/// takes 1 exactly when no borrow occurs (VX at least VY), then VX takes
/// the wrapping difference of the registers as they then stand.
pub open spec fn sub_borrow_regs(reg: Seq<u8>, x: int, y: int) -> Seq<u8> {
    let flagged = reg.update(
        15,
        if reg[y] > reg[x] {
            0u8
        } else {
            1u8
        },
    );
    flagged.update(x, vstd::wrapping::u8_specs::wrapping_sub(flagged[x], flagged[y]))
}

/// The register file after a borrow-flagged subtract toward Y (8XY7): the
/// mirror of `sub_borrow_regs`, with VY taking VY minus VX.
pub open spec fn sub_borrow_regs_rev(reg: Seq<u8>, x: int, y: int) -> Seq<u8> {
    let flagged = reg.update(
        15,
        if reg[x] > reg[y] {
            0u8
        } else {
            1u8
        },
    );
    flagged.update(y, vstd::wrapping::u8_specs::wrapping_sub(flagged[y], flagged[x]))
}

/// The register file after a right shift (8XY6): with the shift-in-place
/// quirk VX shifts itself, otherwise VY is first copied into VX; VF takes
/// the bit shifted out.
pub open spec fn shift_right_regs(reg: Seq<u8>, x: int, y: int, ips: bool) -> Seq<u8> {
    let src = if ips {
        reg
    } else {
        reg.update(x, reg[y])
    };
    let flagged = src.update(15, src[x] & 1);
    flagged.update(x, flagged[x] >> 1u8)
}

/// The register file after a left shift (8XYE), mirroring
/// `shift_right_regs`; VF takes the bit shifted out.
pub open spec fn shift_left_regs(reg: Seq<u8>, x: int, y: int, ips: bool) -> Seq<u8> {
    let src = if ips {
        reg
    } else {
        reg.update(x, reg[y])
    };
    let flagged = src.update(15, (src[x] >> 7u8) & 1);
    flagged.update(x, flagged[x] << 1u8)
}

/// The three decimal digits of a byte, hundreds first.
pub open spec fn bcd_digits(val: u8) -> Seq<u8> {
    seq![val / 100u8, (val % 100u8) / 10u8, val % 10u8]
}

/// The opcode at the program counter, as one big-endian 16-bit word.
pub open spec fn spec_opcode(b1: u8, b2: u8) -> u16 {
    ((b1 as int) * 256 + b2 as int) as u16
}

/// The fatal condition one step from `v` raises, if any: no instruction at
/// the program counter, a call at the stack's depth bound, or a memory
/// access through the index register past capacity.
pub open spec fn spec_fault(v: EmuView) -> Option<Fault> {
    if v.pc + 1 >= MEM_SIZE {
        Some(Fault::PcOutOfBounds { pc: v.pc as usize })
    } else {
        let b1 = v.mem[v.pc];
        let b2 = v.mem[v.pc + 1];
        let opcode = spec_opcode(b1, b2);
        match decode(b1, b2) {
            Instr::Call(nnn) => if v.stack.len() >= STACK_LIMIT {
                Some(Fault::StackOverflow { pc: v.pc as usize, opcode })
            } else {
                None
            },
            Instr::Draw(x, y, n) => if v.index + n > MEM_SIZE {
                Some(Fault::MemOutOfBounds { addr: v.index as usize, opcode })
            } else {
                None
            },
            Instr::Bcd(x) => if v.index + 3 > MEM_SIZE {
                Some(Fault::MemOutOfBounds { addr: v.index as usize, opcode })
            } else {
                None
            },
            Instr::StoreRegs(x) => if v.index + x + 1 > MEM_SIZE {
                Some(Fault::MemOutOfBounds { addr: v.index as usize, opcode })
            } else {
                None
            },
            Instr::LoadRegs(x) => if v.index + x >= MEM_SIZE {
                Some(Fault::MemOutOfBounds { addr: v.index as usize, opcode })
            } else {
                None
            },
            _ => None,
        }
    }
}

/// The machine after one fault-free fetch-decode-execute step from `v`,
/// with keypad state `keys` and random byte `rb`. The counter advances by
/// 2 at fetch, before the instruction executes; a key-wait with no key
/// down rewinds it, leaving the machine unchanged.
pub open spec fn spec_step(v: EmuView, keys: u16, rb: u8) -> EmuView {
    let b1 = v.mem[v.pc];
    let b2 = v.mem[v.pc + 1];
    let s = EmuView { pc: v.pc + 2, ..v };
    match decode(b1, b2) {
        Instr::Cls => EmuView { screen: spec_cleared(s.screen), ..s },
        Instr::Ret => if s.stack.len() > 0 {
            EmuView { pc: s.stack.last(), stack: s.stack.drop_last(), ..s }
        } else {
            s
        },
        Instr::Jump(nnn) => EmuView { pc: nnn, ..s },
        Instr::Call(nnn) => EmuView { pc: nnn, stack: s.stack.push(s.pc), ..s },
        Instr::SkipEqImm(x, nn) => if s.reg[x] == nn {
            EmuView { pc: s.pc + 2, ..s }
        } else {
            s
        },
        Instr::SkipNeImm(x, nn) => if s.reg[x] != nn {
            EmuView { pc: s.pc + 2, ..s }
        } else {
            s
        },
        Instr::SkipEqReg(x, y) => if s.reg[x] == s.reg[y] {
            EmuView { pc: s.pc + 2, ..s }
        } else {
            s
        },
        Instr::SetImm(x, nn) => EmuView { reg: s.reg.update(x, nn), ..s },
        Instr::AddImm(x, nn) => EmuView {
            reg: s.reg.update(x, vstd::wrapping::u8_specs::wrapping_add(s.reg[x], nn)),
            ..s
        },
        Instr::Copy(x, y) => EmuView { reg: s.reg.update(x, s.reg[y]), ..s },
        Instr::Or(x, y) => EmuView { reg: s.reg.update(x, s.reg[x] | s.reg[y]), ..s },
        Instr::And(x, y) => EmuView { reg: s.reg.update(x, s.reg[x] & s.reg[y]), ..s },
        Instr::Xor(x, y) => EmuView { reg: s.reg.update(x, s.reg[x] ^ s.reg[y]), ..s },
        Instr::AddReg(x, y) => EmuView {
            reg: s.reg.update(x, vstd::wrapping::u8_specs::wrapping_add(s.reg[x], s.reg[y])),
            ..s
        },
        Instr::SubXy(x, y) => EmuView { reg: sub_borrow_regs(s.reg, x, y), ..s },
        Instr::ShiftRight(x, y) => EmuView { reg: shift_right_regs(s.reg, x, y, s.ips), ..s },
        Instr::SubYx(x, y) => EmuView { reg: sub_borrow_regs_rev(s.reg, x, y), ..s },
        Instr::ShiftLeft(x, y) => EmuView { reg: shift_left_regs(s.reg, x, y, s.ips), ..s },
        Instr::SkipNeReg(x, y) => if s.reg[x] != s.reg[y] {
            EmuView { pc: s.pc + 2, ..s }
        } else {
            s
        },
        Instr::SetIndex(nnn) => EmuView { index: nnn as u16, ..s },
        Instr::JumpV0(nnn) => EmuView { pc: s.reg[0] + nnn, ..s },
        Instr::Rand(x, nn) => EmuView { reg: s.reg.update(x, nn & rb), ..s },
        Instr::Draw(x, y, n) => {
            let sprite = s.mem.subrange(s.index as int, s.index + n);
            let cx = s.reg[x];
            let cy = s.reg[y];
            let carry: u8 = if spec_draw_hit(s.screen, sprite, cx, cy) {
                1u8
            } else {
                0u8
            };
            EmuView {
                screen: spec_draw(s.screen, sprite, cx, cy),
                reg: s.reg.update(15, carry),
                ..s
            }
        },
        Instr::SkipKey(x) => if key_down(keys, s.reg[x]) {
            EmuView { pc: s.pc + 2, ..s }
        } else {
            s
        },
        Instr::SkipNoKey(x) => if !key_down(keys, s.reg[x]) {
            EmuView { pc: s.pc + 2, ..s }
        } else {
            s
        },
        Instr::ReadDelay(x) => EmuView { reg: s.reg.update(x, s.timer), ..s },
        Instr::WaitKey(x) => match spec_any_down(keys) {
            Some(code) => EmuView { reg: s.reg.update(x, code), ..s },
            None => v,
        },
        Instr::SetDelay(x) => EmuView { timer: s.reg[x], ..s },
        Instr::SetSound(x) => EmuView { s_timer: s.reg[x], ..s },
        Instr::AddIndex(x) => EmuView {
            index: vstd::wrapping::u16_specs::wrapping_add(s.index, s.reg[x] as u16),
            reg: s.reg.update(
                15,
                if s.index + s.reg[x] > 0xFFF {
                    1u8
                } else {
                    0u8
                },
            ),
            ..s
        },
        Instr::FontChar(x) => EmuView {
            index: (FONT_ADDR + (s.reg[x] & 0x0F) * 5) as u16,
            ..s
        },
        Instr::Bcd(x) => EmuView {
            mem: write_block(s.mem, s.index as int, bcd_digits(s.reg[x])),
            ..s
        },
        Instr::StoreRegs(x) => EmuView {
            mem: write_block(s.mem, s.index as int, s.reg.subrange(0, x + 1)),
            ..s
        },
        Instr::LoadRegs(x) => EmuView {
            reg: Seq::new(
                16,
                |i: int|
                    if 0 <= i <= x {
                        s.mem[s.index + i]
                    } else {
                        s.reg[i]
                    },
            ),
            ..s
        },
        Instr::Unknown => s,
    }
}

/// Law: register-register subtract, in both directions, sets VF to 1
/// exactly when no borrow occurs (the minuend is at least the subtrahend)
/// and gives the destination the difference modulo 256 regardless of the
/// flag. Stated for destinations and sources other than VF itself, whose
/// value the flag write overwrites first.
pub proof fn lemma_sub_no_borrow(reg: Seq<u8>, x: int, y: int)
    requires
        reg.len() == 16,
        0 <= x < 15,
        0 <= y < 15,
    ensures
        sub_borrow_regs(reg, x, y)[15] == (if reg[x] >= reg[y] {
            1u8
        } else {
            0u8
        }),
        sub_borrow_regs(reg, x, y)[x] as int == (reg[x] - reg[y]) % 256,
        sub_borrow_regs_rev(reg, x, y)[15] == (if reg[y] >= reg[x] {
            1u8
        } else {
            0u8
        }),
        sub_borrow_regs_rev(reg, x, y)[y] as int == (reg[y] - reg[x]) % 256,
{
    lemma_mod_diff(reg[x] as int, reg[y] as int);
    lemma_mod_diff(reg[y] as int, reg[x] as int);
}

proof fn lemma_mod_diff(a: int, b: int)
    requires
        0 <= a < 256,
        0 <= b < 256,
    ensures
        a >= b ==> (a - b) % 256 == a - b,
        a < b ==> (a - b) % 256 == a - b + 256,
{
    if a >= b {
        vstd::arithmetic::div_mod::lemma_small_mod((a - b) as nat, 256);
    } else {
        vstd::arithmetic::div_mod::lemma_mod_add_multiples_vanish(a - b, 256);
        vstd::arithmetic::div_mod::lemma_small_mod((a - b + 256) as nat, 256);
    }
}

/// Law: in shift-in-place mode a shift reads and writes the same register
/// (the destination doubles as the source); in copy-then-shift mode the
/// same numeric shift is applied, sourced from the Y register's pre-shift
/// value. VF takes the shifted-out bit either way, and no other register
/// changes. Stated for operands other than VF itself.
pub proof fn lemma_shift_quirk(reg: Seq<u8>, x: int, y: int)
    requires
        reg.len() == 16,
        0 <= x < 15,
        0 <= y < 15,
    ensures
        shift_right_regs(reg, x, y, true)[x] == reg[x] >> 1u8,
        shift_right_regs(reg, x, y, false)[x] == reg[y] >> 1u8,
        shift_right_regs(reg, x, y, true)[15] == reg[x] & 1,
        shift_right_regs(reg, x, y, false)[15] == reg[y] & 1,
        shift_left_regs(reg, x, y, true)[x] == reg[x] << 1u8,
        shift_left_regs(reg, x, y, false)[x] == reg[y] << 1u8,
        shift_left_regs(reg, x, y, true)[15] == (reg[x] >> 7u8) & 1,
        shift_left_regs(reg, x, y, false)[15] == (reg[y] >> 7u8) & 1,
        forall|q: int, ips: bool|
            0 <= q < 15 && q != x ==> #[trigger] shift_right_regs(reg, x, y, ips)[q] == reg[q],
        forall|q: int, ips: bool|
            0 <= q < 15 && q != x ==> #[trigger] shift_left_regs(reg, x, y, ips)[q] == reg[q],
{
}

/// Law: a key-wait step with no key down leaves the whole machine
/// unchanged — the counter rewinds over the instruction, so the next
/// instruction-clock tick re-executes it, however many ticks pass; once a
/// key is down, the counter stands advanced by 2 and the destination
/// register holds the pressed key's code.
pub proof fn lemma_wait_key(v: EmuView, keys: u16, rb: u8, x: int)
    requires
        v.wf(),
        v.pc + 1 < MEM_SIZE,
        decode(v.mem[v.pc], v.mem[v.pc + 1]) == Instr::WaitKey(x),
        0 <= x < 16,
    ensures
        spec_any_down(keys) is None ==> spec_step(v, keys, rb) == v,
        spec_any_down(keys) matches Some(code) ==> spec_step(v, keys, rb) == (EmuView {
            pc: v.pc + 2,
            reg: v.reg.update(x, code),
            ..v
        }),
{
    match spec_any_down(keys) {
        Some(code) => {
            assert(spec_step(v, keys, rb) =~= (EmuView {
                pc: v.pc + 2,
                reg: v.reg.update(x, code),
                ..v
            }));
        },
        None => {},
    }
}

/// Relies on rand 0.10's `rand::random`: one byte from the thread-local
/// generator, for the CXNN instruction. Nothing is promised of the value;
/// the step contract holds whatever comes back.
#[verifier::external_body]
fn random_byte() -> u8 {
    rand::random::<u8>()
}

impl Emulator {
    /// One fetch-decode-execute step. On success the machine moves to
    /// `spec_step` of its old state for some random byte (the byte only
    /// matters to the CXNN instruction); on a fault — exactly the
    /// conditions `spec_fault` names — the machine is unchanged and the
    /// fault identifies the faulting address and opcode.
    #[verifier::rlimit(60)]
    pub fn step(&mut self, keys: &Keypad) -> (r: Result<(), Fault>)
        requires
            old(self)@.wf(),
        ensures
            final(self)@.wf(),
            match r {
                Ok(()) => spec_fault(old(self)@) is None && (exists|rb: u8|
                    final(self)@ == #[trigger] spec_step(old(self)@, keys.mask, rb)),
                Err(f) => spec_fault(old(self)@) == Some(f) && final(self)@ == old(self)@,
            },
    {
        let ghost pre = self@;
        if self.counter + 1 >= MEM_SIZE {
            return Err(Fault::PcOutOfBounds { pc: self.counter });
        }
        let b1 = self.memory[self.counter];
        let b2 = self.memory[self.counter + 1];
        let n1 = (b1 & 0xF0) >> 4u8;
        let n2 = b1 & 0x0F;
        let n3 = (b2 & 0xF0) >> 4u8;
        let n4 = b2 & 0x0F;
        proof {
            assert(((b1 & 0xF0) >> 4u8) < 16 && (b1 & 0x0F) < 16 && ((b2 & 0xF0) >> 4u8) < 16 && (
            b2 & 0x0F) < 16) by (bit_vector);
        }
        let x = n2 as usize;
        let y = n3 as usize;
        let n = n4;
        let nn = b2;
        let nnn = (n2 as usize) * 256 + (b2 as usize);
        let opcode = (b1 as u16) * 256 + (b2 as u16);
        let ghost mut rbg: u8 = 0u8;
        self.counter = self.counter + 2;
        if n1 == 0x0 && n2 == 0x0 && n3 == 0xE && n4 == 0x0 {
            self.display.clear();
            proof {
                assert(self@ =~= spec_step(pre, keys.mask, rbg));
            }
        } else if n1 == 0x0 && n2 == 0x0 && n3 == 0xE && n4 == 0xE {
            match self.stack.pop() {
                Some(a) => {
                    self.counter = a;
                },
                None => {},
            }
            proof {
                assert(self@.stack =~= spec_step(pre, keys.mask, rbg).stack);
                assert(self@ =~= spec_step(pre, keys.mask, rbg));
            }
        } else if n1 == 0x1 {
            self.counter = nnn;
            proof {
                assert(self@ =~= spec_step(pre, keys.mask, rbg));
            }
        } else if n1 == 0x2 {
            if self.stack.len() >= STACK_LIMIT {
                self.counter = self.counter - 2;
                proof {
                    assert(self@ =~= pre);
                }
                return Err(Fault::StackOverflow { pc: self.counter, opcode });
            }
            self.stack.push(self.counter);
            self.counter = nnn;
            proof {
                assert(self@.stack =~= spec_step(pre, keys.mask, rbg).stack);
                assert(self@ =~= spec_step(pre, keys.mask, rbg));
            }
        } else if n1 == 0x3 {
            if self.reg[x] == nn {
                self.counter = self.counter + 2;
            }
            proof {
                assert(self@ =~= spec_step(pre, keys.mask, rbg));
            }
        } else if n1 == 0x4 {
            if self.reg[x] != nn {
                self.counter = self.counter + 2;
            }
            proof {
                assert(self@ =~= spec_step(pre, keys.mask, rbg));
            }
        } else if n1 == 0x5 && n4 == 0x0 {
            if self.reg[x] == self.reg[y] {
                self.counter = self.counter + 2;
            }
            proof {
                assert(self@ =~= spec_step(pre, keys.mask, rbg));
            }
        } else if n1 == 0x6 {
            self.reg[x] = nn;
            proof {
                assert(self@ =~= spec_step(pre, keys.mask, rbg));
            }
        } else if n1 == 0x7 {
            let v2 = self.reg[x].wrapping_add(nn);
            self.reg[x] = v2;
            proof {
                assert(self@ =~= spec_step(pre, keys.mask, rbg));
            }
        } else if n1 == 0x8 && n4 == 0x0 {
            let v2 = self.reg[y];
            self.reg[x] = v2;
            proof {
                assert(self@ =~= spec_step(pre, keys.mask, rbg));
            }
        } else if n1 == 0x8 && n4 == 0x1 {
            let v2 = self.reg[x] | self.reg[y];
            self.reg[x] = v2;
            proof {
                assert(self@ =~= spec_step(pre, keys.mask, rbg));
            }
        } else if n1 == 0x8 && n4 == 0x2 {
            let v2 = self.reg[x] & self.reg[y];
            self.reg[x] = v2;
            proof {
                assert(self@ =~= spec_step(pre, keys.mask, rbg));
            }
        } else if n1 == 0x8 && n4 == 0x3 {
            let v2 = self.reg[x] ^ self.reg[y];
            self.reg[x] = v2;
            proof {
                assert(self@ =~= spec_step(pre, keys.mask, rbg));
            }
        } else if n1 == 0x8 && n4 == 0x4 {
            let v2 = self.reg[x].wrapping_add(self.reg[y]);
            self.reg[x] = v2;
            proof {
                assert(self@ =~= spec_step(pre, keys.mask, rbg));
            }
        } else if n1 == 0x8 && n4 == 0x5 {
            let flag: u8 = if self.reg[y] > self.reg[x] {
                0
            } else {
                1
            };
            self.reg[0xF] = flag;
            let v2 = self.reg[x].wrapping_sub(self.reg[y]);
            self.reg[x] = v2;
            proof {
                assert(self@ =~= spec_step(pre, keys.mask, rbg));
            }
        } else if n1 == 0x8 && n4 == 0x6 {
            if !self.ips {
                let v0 = self.reg[y];
                self.reg[x] = v0;
            }
            let flag = self.reg[x] & 1u8;
            self.reg[0xF] = flag;
            let v2 = self.reg[x] >> 1u8;
            self.reg[x] = v2;
            proof {
                assert(self@ =~= spec_step(pre, keys.mask, rbg));
            }
        } else if n1 == 0x8 && n4 == 0x7 {
            let flag: u8 = if self.reg[x] > self.reg[y] {
                0
            } else {
                1
            };
            self.reg[0xF] = flag;
            let v2 = self.reg[y].wrapping_sub(self.reg[x]);
            self.reg[y] = v2;
            proof {
                assert(self@ =~= spec_step(pre, keys.mask, rbg));
            }
        } else if n1 == 0x8 && n4 == 0xE {
            if !self.ips {
                let v0 = self.reg[y];
                self.reg[x] = v0;
            }
            let flag = (self.reg[x] >> 7u8) & 1u8;
            self.reg[0xF] = flag;
            let v2 = self.reg[x] << 1u8;
            self.reg[x] = v2;
            proof {
                assert(self@ =~= spec_step(pre, keys.mask, rbg));
            }
        } else if n1 == 0x9 && n4 == 0x0 {
            if self.reg[x] != self.reg[y] {
                self.counter = self.counter + 2;
            }
            proof {
                assert(self@ =~= spec_step(pre, keys.mask, rbg));
            }
        } else if n1 == 0xA {
            self.index = nnn as u16;
            proof {
                assert(self@ =~= spec_step(pre, keys.mask, rbg));
            }
        } else if n1 == 0xB {
            self.counter = self.reg[0] as usize + nnn;
            proof {
                assert(self@ =~= spec_step(pre, keys.mask, rbg));
            }
        } else if n1 == 0xC {
            let r = random_byte();
            proof {
                rbg = r;
            }
            self.reg[x] = nn & r;
            proof {
                assert(self@ =~= spec_step(pre, keys.mask, rbg));
            }
        } else if n1 == 0xD {
            let at = self.index as usize;
            if at + (n as usize) > MEM_SIZE {
                self.counter = self.counter - 2;
                proof {
                    assert(self@ =~= pre);
                }
                return Err(Fault::MemOutOfBounds { addr: at, opcode });
            }
            let mut sprite: Vec<u8> = Vec::new();
            let mut k: usize = 0;
            while k < n as usize
                invariant
                    at + (n as usize) <= MEM_SIZE,
                    self.memory@.len() == MEM_SIZE,
                    0 <= k <= n as usize,
                    sprite@.len() == k,
                    forall|q: int| 0 <= q < k ==> sprite@[q] == self.memory@[at + q],
                decreases n as usize - k,
            {
                sprite.push(self.memory[at + k]);
                k = k + 1;
            }
            proof {
                assert(sprite@ =~= self@.mem.subrange(at as int, at + n as int));
            }
            let cx = self.reg[x];
            let cy = self.reg[y];
            let carry = self.display.draw(sprite.as_slice(), (cx, cy));
            self.reg[0xF] = carry;
            proof {
                assert(self@ =~= spec_step(pre, keys.mask, rbg));
            }
        } else if n1 == 0xE && n3 == 0x9 && n4 == 0xE {
            if keys.is_down(self.reg[x]) {
                self.counter = self.counter + 2;
            }
            proof {
                assert(self@ =~= spec_step(pre, keys.mask, rbg));
            }
        } else if n1 == 0xE && n3 == 0xA && n4 == 0x1 {
            if !keys.is_down(self.reg[x]) {
                self.counter = self.counter + 2;
            }
            proof {
                assert(self@ =~= spec_step(pre, keys.mask, rbg));
            }
        } else if n1 == 0xF && n3 == 0x0 && n4 == 0x7 {
            let t = self.timer;
            self.reg[x] = t;
            proof {
                assert(self@ =~= spec_step(pre, keys.mask, rbg));
            }
        } else if n1 == 0xF && n3 == 0x0 && n4 == 0xA {
            match keys.any_down() {
                Some(code) => {
                    self.reg[x] = code;
                },
                None => {
                    self.counter = self.counter - 2;
                },
            }
            proof {
                assert(self@ =~= spec_step(pre, keys.mask, rbg));
            }
        } else if n1 == 0xF && n3 == 0x1 && n4 == 0x5 {
            self.timer = self.reg[x];
            proof {
                assert(self@ =~= spec_step(pre, keys.mask, rbg));
            }
        } else if n1 == 0xF && n3 == 0x1 && n4 == 0x8 {
            self.s_timer = self.reg[x];
            proof {
                assert(self@ =~= spec_step(pre, keys.mask, rbg));
            }
        } else if n1 == 0xF && n3 == 0x1 && n4 == 0xE {
            let add = self.reg[x];
            let sum = self.index as usize + add as usize;
            self.index = self.index.wrapping_add(add as u16);
            let flag: u8 = if sum > 0xFFF {
                1
            } else {
                0
            };
            self.reg[0xF] = flag;
            proof {
                assert(self@ =~= spec_step(pre, keys.mask, rbg));
            }
        } else if n1 == 0xF && n3 == 0x2 && n4 == 0x9 {
            let vx = self.reg[x];
            let to = vx & 0x0F;
            proof {
                assert(to < 16) by (bit_vector)
                    requires
                        to == vx & 0x0F,
                ;
            }
            self.index = FONT_ADDR as u16 + (to as u16) * 5;
            proof {
                assert(self@ =~= spec_step(pre, keys.mask, rbg));
            }
        } else if n1 == 0xF && n3 == 0x3 && n4 == 0x3 {
            let at = self.index as usize;
            if at + 3 > MEM_SIZE {
                self.counter = self.counter - 2;
                proof {
                    assert(self@ =~= pre);
                }
                return Err(Fault::MemOutOfBounds { addr: at, opcode });
            }
            let val = self.reg[x];
            let hundreds = val / 100;
            let tens = (val % 100) / 10;
            let ones = val % 10;
            let mut block: Vec<u8> = Vec::new();
            block.push(hundreds);
            block.push(tens);
            block.push(ones);
            let res = self.set_mem(block.as_slice());
            proof {
                assert(block@ =~= bcd_digits(val));
                assert(res is Ok);
                assert(self@ =~= spec_step(pre, keys.mask, rbg));
            }
        } else if n1 == 0xF && n3 == 0x5 && n4 == 0x5 {
            let at = self.index as usize;
            if at + x + 1 > MEM_SIZE {
                self.counter = self.counter - 2;
                proof {
                    assert(self@ =~= pre);
                }
                return Err(Fault::MemOutOfBounds { addr: at, opcode });
            }
            let mut moving: Vec<u8> = Vec::new();
            let mut k: usize = 0;
            while k <= x
                invariant
                    x < 16,
                    self.reg@.len() == 16,
                    0 <= k <= x + 1,
                    moving@.len() == k,
                    forall|q: int| 0 <= q < k ==> moving@[q] == self.reg@[q],
                decreases x + 1 - k,
            {
                moving.push(self.reg[k]);
                k = k + 1;
            }
            proof {
                assert(moving@ =~= self@.reg.subrange(0, x as int + 1));
            }
            let res = self.set_mem(moving.as_slice());
            proof {
                assert(res is Ok);
                assert(self@ =~= spec_step(pre, keys.mask, rbg));
            }
        } else if n1 == 0xF && n3 == 0x6 && n4 == 0x5 {
            let at = self.index as usize;
            if at + x >= MEM_SIZE {
                self.counter = self.counter - 2;
                proof {
                    assert(self@ =~= pre);
                }
                return Err(Fault::MemOutOfBounds { addr: at, opcode });
            }
            let moving = match self.load_mem(x) {
                Ok(v) => v,
                Err(_) => {
                    proof {
                        assert(false);
                    }
                    Vec::new()
                },
            };
            let mut k: usize = 0;
            while k <= x
                invariant
                    x < 16,
                    self.reg@.len() == 16,
                    0 <= k <= x + 1,
                    moving@.len() == x + 1,
                    self.memory@ == pre.mem,
                    self.display == old(self).display,
                    self.index == old(self).index,
                    self.counter as int == pre.pc + 2,
                    self.stack == old(self).stack,
                    self.timer == old(self).timer,
                    self.s_timer == old(self).s_timer,
                    self.tick_us == old(self).tick_us,
                    self.ips == old(self).ips,
                    forall|q: int| 0 <= q < x + 1 ==> moving@[q] == pre.mem[at + q],
                    forall|q: int|
                        0 <= q < 16 ==> self.reg@[q] == (if q < k {
                            moving@[q]
                        } else {
                            pre.reg[q]
                        }),
                decreases x + 1 - k,
            {
                let v2 = moving[k];
                self.reg[k] = v2;
                k = k + 1;
            }
            proof {
                assert(self@.reg =~= spec_step(pre, keys.mask, rbg).reg);
                assert(self@ =~= spec_step(pre, keys.mask, rbg));
            }
        } else {
            proof {
                assert(self@ =~= spec_step(pre, keys.mask, rbg));
            }
        }
        proof {
            assert(self@ == spec_step(pre, keys.mask, rbg));
            assert(spec_fault(pre) is None);
        }
        Ok(())
    }
}

} // verus!

