use vstd::prelude::*;
use crate::display;
use crate::display::Display;
use crate::keyboard;
use crate::keyboard::Keyboard;
use crate::memory;
use crate::memory::Memory;
use crate::semantics::{
    coll_upto, disp_upto, lemma_decode_bounds, lemma_draw_init, lemma_draw_row_end,
    lemma_draw_step, spec_after_fetch, spec_draw, spec_exec, spec_fault_pc, spec_fetch,
    spec_initial, spec_load_regs, spec_loaded, spec_set_reg, spec_set_reg_flag, spec_skip_if,
    spec_store_regs, Fault, MachineView, Step, STACK_DEPTH,
};

verus! {

/// The interpreter: one memory, one display, one keypad, the register
/// file, the index register, the program counter, the call stack and the
/// two countdown timers. `cycle` executes exactly one opcode;
/// `tick_timers` performs one 60 Hz timer decrement.
pub struct Cpu {
    pub memory: Memory,
    pub display: Display,
    pub keyboard: Keyboard,
    pub registers: Vec<u8>,
    pub index: u16,
    pub program_counter: u16,
    pub stack: Vec<u16>,
    pub delay_timer: u8,
    pub sound_timer: u8,
}

impl View for Cpu {
    type V = MachineView;

    open spec fn view(&self) -> MachineView {
        MachineView {
            mem: self.memory@,
            disp: self.display@,
            keys: self.keyboard@,
            regs: self.registers@,
            index: self.index,
            pc: self.program_counter,
            stack: self.stack@,
            delay: self.delay_timer,
            sound: self.sound_timer,
        }
    }
}

/// Relies on rand::random: one byte drawn from the process-wide
/// generator. Its distribution is uniform over 0..=255; nothing can be
/// promised of a single drawn value, so this contract says nothing.
#[verifier::external_body]
fn random_byte() -> u8 {
    rand::random::<u8>()
}

fn zeroed_regs() -> (v: Vec<u8>)
    ensures
        v@ == Seq::new(16, |i: int| 0u8),
{
    let mut v: Vec<u8> = Vec::new();
    while v.len() < 16
        invariant
            v@.len() <= 16,
            forall|i: int| 0 <= i < v@.len() ==> v@[i] == 0u8,
        decreases 16 - v@.len(),
    {
        v.push(0);
    }
    proof {
        assert(v@ =~= Seq::new(16, |i: int| 0u8));
    }
    v
}

impl Cpu {
    pub open spec fn wf(&self) -> bool {
        self@.wf()
    }

    pub fn new() -> (c: Cpu)
        ensures
            c.wf(),
            c@ == spec_initial(),
    {
        let mut mem = Memory::new();
        mem.load_fontset();
        let c = Cpu {
            memory: mem,
            display: Display::new(),
            keyboard: Keyboard::new(),
            registers: zeroed_regs(),
            index: 0,
            program_counter: 0x200,
            stack: Vec::new(),
            delay_timer: 0,
            sound_timer: 0,
        };
        proof {
            assert(c@ =~= spec_initial());
        }
        c
    }

    /// Re-initializes the whole machine: display cleared, registers and
    /// timers zeroed, PC back at the program start, stack and keypad
    /// emptied, memory cleared and the font reloaded. The outcome does
    /// not depend on the state the machine was in.
    pub fn reset(&mut self)
        requires
            old(self).wf(),
        ensures
            final(self).wf(),
            final(self)@ == spec_initial(),
    {
        self.display.clear();
        let mut i: usize = 0;
        while i < 16
            invariant
                self.registers@.len() == 16,
                i <= 16,
                forall|j: int| 0 <= j < i ==> self.registers@[j] == 0u8,
                self.memory@.len() == memory::MEM_SIZE,
                self.keyboard@.len() == keyboard::KEYS,
                self.display@ == display::spec_blank_disp(),
            decreases 16 - i,
        {
            self.registers[i] = 0;
            i = i + 1;
        }
        self.index = 0;
        self.program_counter = 0x200;
        self.stack.clear();
        self.delay_timer = 0;
        self.sound_timer = 0;
        self.keyboard.clear();
        self.memory.clear();
        self.memory.load_fontset();
        proof {
            assert(self.registers@ =~= Seq::new(16, |j: int| 0u8));
            assert(self@ =~= spec_initial());
        }
    }

    /// Resets the machine and copies the rom in at the program start:
    /// the resulting state is a function of the rom bytes alone.
    pub fn load(&mut self, rom: &[u8])
        requires
            old(self).wf(),
        ensures
            final(self).wf(),
            final(self)@ == spec_loaded(rom@),
    {
        self.reset();
        self.memory.load_program(rom);
        proof {
            assert(self@ =~= spec_loaded(rom@));
        }
    }

    /// Decrements each timer that is nonzero; timers never go below
    /// zero. Meant to be driven at a fixed 60 Hz, independently of how
    /// many opcodes execute in between.
    pub fn tick_timers(&mut self)
        requires
            old(self).wf(),
        ensures
            final(self).wf(),
            final(self)@ == (MachineView {
                delay: if old(self)@.delay > 0 {
                    (old(self)@.delay - 1) as u8
                } else {
                    0u8
                },
                sound: if old(self)@.sound > 0 {
                    (old(self)@.sound - 1) as u8
                } else {
                    0u8
                },
                ..old(self)@
            }),
    {
        if self.delay_timer > 0 {
            self.delay_timer = self.delay_timer - 1;
        }
        if self.sound_timer > 0 {
            self.sound_timer = self.sound_timer - 1;
        }
    }

    /// Executes one fetch-decode-execute step: reads the opcode word at
    /// the program counter big-endian, advances the counter past it, and
    /// performs the opcode. An opcode outside the table, or a call past
    /// the stack's capacity, returns the fault instead of executing, with
    /// the machine left exactly as the fetch left it.
    pub fn cycle(&mut self) -> (r: Result<(), Fault>)
        requires
            old(self).wf(),
        ensures
            final(self).wf(),
            (match r {
                Ok(()) => exists|rb: u8|
                    spec_exec(spec_after_fetch(old(self)@), spec_fetch(old(self)@), rb)
                        == Step::Next(final(self)@),
                Err(f) => spec_exec(spec_after_fetch(old(self)@), spec_fetch(old(self)@), 0u8)
                    == Step::Fail(f) && final(self)@ == spec_after_fetch(old(self)@),
            }),
    {
        let opcode = self.fetch_opcode();
        self.execute_opcode(opcode)
    }

    fn fetch_opcode(&mut self) -> (op: u16)
        requires
            old(self).wf(),
        ensures
            final(self).wf(),
            op == spec_fetch(old(self)@),
            final(self)@ == spec_after_fetch(old(self)@),
    {
        let high_byte = self.memory.read(self.program_counter) as u16;
        let low_byte = if self.program_counter < 0xFFFF {
            self.memory.read(self.program_counter + 1) as u16
        } else {
            0u16
        };
        self.program_counter = self.program_counter.wrapping_add(2);
        (high_byte << 8u16) | low_byte
    }

    /// The fault address reported with an error: two bytes back from the
    /// already-advanced program counter, clamped at zero.
    fn fault_pc(&self) -> (pc: u16)
        ensures
            pc == spec_fault_pc(self.program_counter),
    {
        if self.program_counter >= 2 {
            self.program_counter - 2
        } else {
            0
        }
    }

    fn execute_opcode(&mut self, opcode: u16) -> (r: Result<(), Fault>)
        requires
            old(self).wf(),
        ensures
            final(self).wf(),
            (match r {
                Ok(()) => exists|rb: u8|
                    spec_exec(old(self)@, opcode, rb) == Step::Next(final(self)@),
                Err(f) => spec_exec(old(self)@, opcode, 0u8) == Step::Fail(f) && final(self)@
                    == old(self)@,
            }),
    {
        proof {
            lemma_decode_bounds(opcode);
        }
        let x = ((opcode & 0x0F00) >> 8u16) as usize;
        let y = ((opcode & 0x00F0) >> 4u16) as usize;
        let n = (opcode & 0x000F) as u8;
        let nn = (opcode & 0x00FF) as u8;
        let nnn = opcode & 0x0FFF;

        match opcode & 0xF000 {
            0x0000 => {
                if opcode == 0x00E0 {
                    self.cls();
                    proof {
                        assert(spec_exec(old(self)@, opcode, 0u8) == Step::Next(self@));
                    }
                    Ok(())
                } else if opcode == 0x00EE {
                    self.ret();
                    proof {
                        assert(spec_exec(old(self)@, opcode, 0u8) == Step::Next(self@));
                    }
                    Ok(())
                } else {
                    Err(self.invalid(opcode))
                }
            },
            0x1000 => {
                self.jp(nnn);
                proof {
                    assert(spec_exec(old(self)@, opcode, 0u8) == Step::Next(self@));
                }
                Ok(())
            },
            0x2000 => {
                if self.stack.len() >= STACK_DEPTH {
                    Err(Fault::StackOverflow { opcode, pc: self.fault_pc() })
                } else {
                    self.call(nnn);
                    proof {
                        assert(spec_exec(old(self)@, opcode, 0u8) == Step::Next(self@));
                    }
                    Ok(())
                }
            },
            0x3000 => {
                self.se(x, nn);
                proof {
                    assert(spec_exec(old(self)@, opcode, 0u8) == Step::Next(self@));
                }
                Ok(())
            },
            0x4000 => {
                self.sne(x, nn);
                proof {
                    assert(spec_exec(old(self)@, opcode, 0u8) == Step::Next(self@));
                }
                Ok(())
            },
            0x5000 => {
                if opcode & 0x000F == 0 {
                    self.se_reg(x, y);
                    proof {
                        assert(spec_exec(old(self)@, opcode, 0u8) == Step::Next(self@));
                    }
                    Ok(())
                } else {
                    Err(self.invalid(opcode))
                }
            },
            0x6000 => {
                self.ld(x, nn);
                proof {
                    assert(spec_exec(old(self)@, opcode, 0u8) == Step::Next(self@));
                }
                Ok(())
            },
            0x7000 => {
                self.add(x, nn);
                proof {
                    assert(spec_exec(old(self)@, opcode, 0u8) == Step::Next(self@));
                }
                Ok(())
            },
            0x8000 => {
                let low = (opcode & 0x000F) as u8;
                if low == 0x0 {
                    self.ld_reg(x, y);
                } else if low == 0x1 {
                    self.or(x, y);
                } else if low == 0x2 {
                    self.and(x, y);
                } else if low == 0x3 {
                    self.xor(x, y);
                } else if low == 0x4 {
                    self.add_reg(x, y);
                } else if low == 0x5 {
                    self.sub(x, y);
                } else if low == 0x6 {
                    self.shr(x, y);
                } else if low == 0x7 {
                    self.subn(x, y);
                } else if low == 0xE {
                    self.shl(x, y);
                } else {
                    return Err(self.invalid(opcode));
                }
                proof {
                    assert(spec_exec(old(self)@, opcode, 0u8) == Step::Next(self@));
                }
                Ok(())
            },
            0x9000 => {
                if opcode & 0x000F == 0 {
                    self.sne_reg(x, y);
                    proof {
                        assert(spec_exec(old(self)@, opcode, 0u8) == Step::Next(self@));
                    }
                    Ok(())
                } else {
                    Err(self.invalid(opcode))
                }
            },
            0xA000 => {
                self.ld_i(nnn);
                proof {
                    assert(spec_exec(old(self)@, opcode, 0u8) == Step::Next(self@));
                }
                Ok(())
            },
            0xB000 => {
                self.jp_v0(nnn);
                proof {
                    assert(spec_exec(old(self)@, opcode, 0u8) == Step::Next(self@));
                }
                Ok(())
            },
            0xC000 => {
                self.rnd(x, nn);
                proof {
                    let rb = choose|rb: u8| self@ == spec_set_reg(old(self)@, x as int, rb & nn);
                    assert(spec_exec(old(self)@, opcode, rb) == Step::Next(self@));
                }
                Ok(())
            },
            0xD000 => {
                self.drw(x, y, n);
                proof {
                    assert(spec_exec(old(self)@, opcode, 0u8) == Step::Next(self@));
                }
                Ok(())
            },
            0xE000 => {
                let low = (opcode & 0x00FF) as u8;
                if low == 0x9E {
                    self.skp(x);
                } else if low == 0xA1 {
                    self.sknp(x);
                } else {
                    return Err(self.invalid(opcode));
                }
                proof {
                    assert(spec_exec(old(self)@, opcode, 0u8) == Step::Next(self@));
                }
                Ok(())
            },
            _ => {
                // Only a high nibble of 0xF remains after masking: the Fx?? table.
                let low = (opcode & 0x00FF) as u8;
                if low == 0x07 {
                    self.ld_dt(x);
                } else if low == 0x0A {
                    self.ld_k(x);
                } else if low == 0x15 {
                    self.ld_delay(x);
                } else if low == 0x18 {
                    self.ld_sound(x);
                } else if low == 0x1E {
                    self.add_i(x);
                } else if low == 0x29 {
                    self.ld_f(x);
                } else if low == 0x33 {
                    self.ld_b(x);
                } else if low == 0x55 {
                    self.ld_mem(x);
                } else if low == 0x65 {
                    self.ld_reg_mem(x);
                } else {
                    return Err(self.invalid(opcode));
                }
                proof {
                    assert(spec_exec(old(self)@, opcode, 0u8) == Step::Next(self@));
                }
                Ok(())
            },
        }
    }

    fn invalid(&self, opcode: u16) -> (f: Fault)
        ensures
            f == (Fault::InvalidOpcode { opcode, pc: spec_fault_pc(self.program_counter) }),
    {
        Fault::InvalidOpcode { opcode, pc: self.fault_pc() }
    }

    fn cls(&mut self)
        requires
            old(self).wf(),
        ensures
            final(self).wf(),
            final(self)@ == (MachineView { disp: display::spec_blank_disp(), ..old(self)@ }),
    {
        self.display.clear();
    }

    /// Pops the call stack into the program counter; popping an empty
    /// stack leaves the machine, the program counter included, unchanged.
    fn ret(&mut self)
        requires
            old(self).wf(),
        ensures
            final(self).wf(),
            final(self)@ == (if old(self)@.stack.len() == 0 {
                old(self)@
            } else {
                MachineView {
                    pc: old(self)@.stack.last(),
                    stack: old(self)@.stack.drop_last(),
                    ..old(self)@
                }
            }),
    {
        if let Some(addr) = self.stack.pop() {
            self.program_counter = addr;
            proof {
                assert(self@.stack =~= old(self)@.stack.drop_last());
            }
        }
    }

    fn jp(&mut self, addr: u16)
        requires
            old(self).wf(),
        ensures
            final(self).wf(),
            final(self)@ == (MachineView { pc: addr, ..old(self)@ }),
    {
        self.program_counter = addr;
    }

    fn call(&mut self, addr: u16)
        requires
            old(self).wf(),
            old(self)@.stack.len() < STACK_DEPTH,
        ensures
            final(self).wf(),
            final(self)@ == (MachineView {
                stack: old(self)@.stack.push(old(self)@.pc),
                pc: addr,
                ..old(self)@
            }),
    {
        self.stack.push(self.program_counter);
        self.program_counter = addr;
    }

    fn se(&mut self, x: usize, nn: u8)
        requires
            old(self).wf(),
            x < 16,
        ensures
            final(self).wf(),
            final(self)@ == spec_skip_if(old(self)@, old(self)@.regs[x as int] == nn),
    {
        if self.registers[x] == nn {
            self.program_counter = self.program_counter.wrapping_add(2);
        }
    }

    fn sne(&mut self, x: usize, nn: u8)
        requires
            old(self).wf(),
            x < 16,
        ensures
            final(self).wf(),
            final(self)@ == spec_skip_if(old(self)@, old(self)@.regs[x as int] != nn),
    {
        if self.registers[x] != nn {
            self.program_counter = self.program_counter.wrapping_add(2);
        }
    }

    fn se_reg(&mut self, x: usize, y: usize)
        requires
            old(self).wf(),
            x < 16,
            y < 16,
        ensures
            final(self).wf(),
            final(self)@ == spec_skip_if(
                old(self)@,
                old(self)@.regs[x as int] == old(self)@.regs[y as int],
            ),
    {
        if self.registers[x] == self.registers[y] {
            self.program_counter = self.program_counter.wrapping_add(2);
        }
    }

    fn sne_reg(&mut self, x: usize, y: usize)
        requires
            old(self).wf(),
            x < 16,
            y < 16,
        ensures
            final(self).wf(),
            final(self)@ == spec_skip_if(
                old(self)@,
                old(self)@.regs[x as int] != old(self)@.regs[y as int],
            ),
    {
        if self.registers[x] != self.registers[y] {
            self.program_counter = self.program_counter.wrapping_add(2);
        }
    }

    fn ld(&mut self, x: usize, nn: u8)
        requires
            old(self).wf(),
            x < 16,
        ensures
            final(self).wf(),
            final(self)@ == spec_set_reg(old(self)@, x as int, nn),
    {
        self.registers[x] = nn;
    }

    /// The add-immediate opcode wraps modulo 256 and leaves every other
    /// register, the flag register included, untouched.
    fn add(&mut self, x: usize, nn: u8)
        requires
            old(self).wf(),
            x < 16,
        ensures
            final(self).wf(),
            final(self)@ == spec_set_reg(
                old(self)@,
                x as int,
                old(self)@.regs[x as int].wrapping_add(nn),
            ),
    {
        let vx = self.registers[x];
        self.registers[x] = vx.wrapping_add(nn);
    }

    fn ld_reg(&mut self, x: usize, y: usize)
        requires
            old(self).wf(),
            x < 16,
            y < 16,
        ensures
            final(self).wf(),
            final(self)@ == spec_set_reg(old(self)@, x as int, old(self)@.regs[y as int]),
    {
        self.registers[x] = self.registers[y];
    }

    fn or(&mut self, x: usize, y: usize)
        requires
            old(self).wf(),
            x < 16,
            y < 16,
        ensures
            final(self).wf(),
            final(self)@ == spec_set_reg_flag(
                old(self)@,
                x as int,
                old(self)@.regs[x as int] | old(self)@.regs[y as int],
                0,
            ),
    {
        let v = self.registers[x] | self.registers[y];
        self.registers[x] = v;
        self.registers[15] = 0;
    }

    fn and(&mut self, x: usize, y: usize)
        requires
            old(self).wf(),
            x < 16,
            y < 16,
        ensures
            final(self).wf(),
            final(self)@ == spec_set_reg_flag(
                old(self)@,
                x as int,
                old(self)@.regs[x as int] & old(self)@.regs[y as int],
                0,
            ),
    {
        let v = self.registers[x] & self.registers[y];
        self.registers[x] = v;
        self.registers[15] = 0;
    }

    fn xor(&mut self, x: usize, y: usize)
        requires
            old(self).wf(),
            x < 16,
            y < 16,
        ensures
            final(self).wf(),
            final(self)@ == spec_set_reg_flag(
                old(self)@,
                x as int,
                old(self)@.regs[x as int] ^ old(self)@.regs[y as int],
                0,
            ),
    {
        let v = self.registers[x] ^ self.registers[y];
        self.registers[x] = v;
        self.registers[15] = 0;
    }

    /// Add with carry: the sum wraps, and VF reports whether it exceeded
    /// 255. When x is 15 the flag overwrites the sum.
    fn add_reg(&mut self, x: usize, y: usize)
        requires
            old(self).wf(),
            x < 16,
            y < 16,
        ensures
            final(self).wf(),
            final(self)@ == spec_set_reg_flag(
                old(self)@,
                x as int,
                old(self)@.regs[x as int].wrapping_add(old(self)@.regs[y as int]),
                if old(self)@.regs[x as int] + old(self)@.regs[y as int] > 255 {
                    1u8
                } else {
                    0u8
                },
            ),
    {
        let vx = self.registers[x];
        let vy = self.registers[y];
        self.registers[x] = vx.wrapping_add(vy);
        self.registers[15] = if (vx as u16) + (vy as u16) > 255 {
            1
        } else {
            0
        };
    }

    /// Subtract: Vx - Vy wrapping; VF is 1 exactly when no borrow was
    /// needed (pre-operation Vx >= Vy).
    fn sub(&mut self, x: usize, y: usize)
        requires
            old(self).wf(),
            x < 16,
            y < 16,
        ensures
            final(self).wf(),
            final(self)@ == spec_set_reg_flag(
                old(self)@,
                x as int,
                old(self)@.regs[x as int].wrapping_sub(old(self)@.regs[y as int]),
                if old(self)@.regs[x as int] >= old(self)@.regs[y as int] {
                    1u8
                } else {
                    0u8
                },
            ),
    {
        let vx = self.registers[x];
        let vy = self.registers[y];
        self.registers[x] = vx.wrapping_sub(vy);
        self.registers[15] = if vx >= vy {
            1
        } else {
            0
        };
    }

    /// Shift right: the flag takes the low bit of the original Vx; the
    /// y operand plays no part.
    fn shr(&mut self, x: usize, _y: usize)
        requires
            old(self).wf(),
            x < 16,
        ensures
            final(self).wf(),
            final(self)@ == spec_set_reg_flag(
                old(self)@,
                x as int,
                old(self)@.regs[x as int] >> 1u8,
                old(self)@.regs[x as int] & 1,
            ),
    {
        let vx = self.registers[x];
        self.registers[x] = vx >> 1u8;
        self.registers[15] = vx & 1;
    }

    /// Reverse subtract: Vy - Vx wrapping; VF is 1 exactly when no
    /// borrow was needed (Vy >= Vx).
    fn subn(&mut self, x: usize, y: usize)
        requires
            old(self).wf(),
            x < 16,
            y < 16,
        ensures
            final(self).wf(),
            final(self)@ == spec_set_reg_flag(
                old(self)@,
                x as int,
                old(self)@.regs[y as int].wrapping_sub(old(self)@.regs[x as int]),
                if old(self)@.regs[y as int] >= old(self)@.regs[x as int] {
                    1u8
                } else {
                    0u8
                },
            ),
    {
        let vx = self.registers[x];
        let vy = self.registers[y];
        self.registers[x] = vy.wrapping_sub(vx);
        self.registers[15] = if vy >= vx {
            1
        } else {
            0
        };
    }

    /// Shift left: the flag takes the high bit of the original Vx; the
    /// y operand plays no part.
    fn shl(&mut self, x: usize, _y: usize)
        requires
            old(self).wf(),
            x < 16,
        ensures
            final(self).wf(),
            final(self)@ == spec_set_reg_flag(
                old(self)@,
                x as int,
                old(self)@.regs[x as int] << 1u8,
                (old(self)@.regs[x as int] & 0x80) >> 7u8,
            ),
    {
        let vx = self.registers[x];
        self.registers[x] = vx << 1u8;
        self.registers[15] = (vx & 0x80) >> 7u8;
    }

    fn ld_i(&mut self, addr: u16)
        requires
            old(self).wf(),
        ensures
            final(self).wf(),
            final(self)@ == (MachineView { index: addr, ..old(self)@ }),
    {
        self.index = addr;
    }

    fn jp_v0(&mut self, addr: u16)
        requires
            old(self).wf(),
            addr < 4096,
        ensures
            final(self).wf(),
            final(self)@ == (MachineView {
                pc: (addr + old(self)@.regs[0]) as u16,
                ..old(self)@
            }),
    {
        self.program_counter = addr + self.registers[0] as u16;
    }

    fn rnd(&mut self, x: usize, nn: u8)
        requires
            old(self).wf(),
            x < 16,
        ensures
            final(self).wf(),
            exists|rb: u8| final(self)@ == spec_set_reg(old(self)@, x as int, rb & nn),
    {
        let r = random_byte();
        self.registers[x] = r & nn;
        proof {
            assert(self@ == spec_set_reg(old(self)@, x as int, r & nn));
        }
    }

    /// The sprite blit: n rows read at the index register, XOR-drawn at
    /// the position named by registers x and y. Off-canvas bits are
    /// dropped, and VF ends 1 exactly when some drawn bit fell on a lit
    /// pixel.
    fn drw(&mut self, x: usize, y: usize, n: u8)
        requires
            old(self).wf(),
            x < 16,
            y < 16,
            n < 16,
        ensures
            final(self).wf(),
            final(self)@ == spec_draw(old(self)@, x as int, y as int, n as int),
    {
        let ghost m0 = self@;
        let x_pos = self.registers[x] as usize;
        let y_pos = self.registers[y] as usize;

        let mut collided = false;
        let mut row: u8 = 0;
        proof {
            lemma_draw_init(m0, x_pos as int, y_pos as int);
        }
        while row < n
            invariant
                m0.wf(),
                row <= n,
                n < 16,
                x_pos < 256,
                y_pos < 256,
                self.memory@ == m0.mem,
                self.keyboard@ == m0.keys,
                self.registers@ == m0.regs,
                self.index == m0.index,
                self.program_counter == m0.pc,
                self.stack@ == m0.stack,
                self.delay_timer == m0.delay,
                self.sound_timer == m0.sound,
                self.display@ == disp_upto(m0, x_pos as int, y_pos as int, row as int, 0),
                collided == coll_upto(m0, x_pos as int, y_pos as int, row as int, 0),
            decreases n - row,
        {
            let addr = self.index as usize + row as usize;
            let sprite_byte = if addr < memory::MEM_SIZE {
                self.memory.read(addr as u16)
            } else {
                0
            };
            let mut col: u8 = 0;
            while col < 8
                invariant
                    m0.wf(),
                    col <= 8,
                    row < n,
                    n < 16,
                    x_pos < 256,
                    y_pos < 256,
                    sprite_byte == memory::spec_read(m0.mem, m0.index + row as int),
                    self.memory@ == m0.mem,
                    self.keyboard@ == m0.keys,
                    self.registers@ == m0.regs,
                    self.index == m0.index,
                    self.program_counter == m0.pc,
                    self.stack@ == m0.stack,
                    self.delay_timer == m0.delay,
                    self.sound_timer == m0.sound,
                    self.display@ == disp_upto(
                        m0,
                        x_pos as int,
                        y_pos as int,
                        row as int,
                        col as int,
                    ),
                    collided == coll_upto(m0, x_pos as int, y_pos as int, row as int, col as int),
                decreases 8 - col,
            {
                proof {
                    lemma_draw_step(m0, x_pos as int, y_pos as int, row as int, col as int);
                }
                let sprite_pixel = (sprite_byte >> (7 - col)) & 1;
                if sprite_pixel == 1 {
                    let display_x = x_pos + col as usize;
                    let display_y = y_pos + row as usize;
                    if display_x < display::WIDTH && display_y < display::HEIGHT {
                        if self.display.get_pixel(display_x, display_y) {
                            collided = true;
                        }
                        self.display.toggle_pixel(display_x, display_y);
                    }
                }
                col = col + 1;
            }
            proof {
                lemma_draw_row_end(m0, x_pos as int, y_pos as int, row as int);
            }
            row = row + 1;
        }
        self.registers[15] = if collided {
            1
        } else {
            0
        };
        proof {
            assert(self@ =~= spec_draw(old(self)@, x as int, y as int, n as int));
        }
    }

    fn skp(&mut self, x: usize)
        requires
            old(self).wf(),
            x < 16,
        ensures
            final(self).wf(),
            final(self)@ == spec_skip_if(
                old(self)@,
                keyboard::spec_key_down(old(self)@.keys, old(self)@.regs[x as int] as int),
            ),
    {
        if self.keyboard.is_key_pressed(self.registers[x]) {
            self.program_counter = self.program_counter.wrapping_add(2);
        }
    }

    fn sknp(&mut self, x: usize)
        requires
            old(self).wf(),
            x < 16,
        ensures
            final(self).wf(),
            final(self)@ == spec_skip_if(
                old(self)@,
                !keyboard::spec_key_down(old(self)@.keys, old(self)@.regs[x as int] as int),
            ),
    {
        if !self.keyboard.is_key_pressed(self.registers[x]) {
            self.program_counter = self.program_counter.wrapping_add(2);
        }
    }

    fn ld_dt(&mut self, x: usize)
        requires
            old(self).wf(),
            x < 16,
        ensures
            final(self).wf(),
            final(self)@ == spec_set_reg(old(self)@, x as int, old(self)@.delay),
    {
        self.registers[x] = self.delay_timer;
    }

    /// The blocking-input opcode: with no key down, the program counter
    /// is rewound over the opcode so the next step retries it; with keys
    /// down, the lowest-indexed one is stored in Vx.
    fn ld_k(&mut self, x: usize)
        requires
            old(self).wf(),
            x < 16,
        ensures
            final(self).wf(),
            final(self)@ == (match keyboard::spec_first_key(old(self)@.keys) {
                Some(k) => spec_set_reg(old(self)@, x as int, k),
                None => MachineView { pc: old(self)@.pc.wrapping_sub(2), ..old(self)@ },
            }),
    {
        if let Some(key) = self.keyboard.get_pressed_key() {
            self.registers[x] = key;
        } else {
            self.program_counter = self.program_counter.wrapping_sub(2);
        }
    }

    fn ld_delay(&mut self, x: usize)
        requires
            old(self).wf(),
            x < 16,
        ensures
            final(self).wf(),
            final(self)@ == (MachineView { delay: old(self)@.regs[x as int], ..old(self)@ }),
    {
        self.delay_timer = self.registers[x];
    }

    fn ld_sound(&mut self, x: usize)
        requires
            old(self).wf(),
            x < 16,
        ensures
            final(self).wf(),
            final(self)@ == (MachineView { sound: old(self)@.regs[x as int], ..old(self)@ }),
    {
        self.sound_timer = self.registers[x];
    }

    fn add_i(&mut self, x: usize)
        requires
            old(self).wf(),
            x < 16,
        ensures
            final(self).wf(),
            final(self)@ == (MachineView {
                index: old(self)@.index.wrapping_add(old(self)@.regs[x as int] as u16),
                ..old(self)@
            }),
    {
        self.index = self.index.wrapping_add(self.registers[x] as u16);
    }

    /// The font-address opcode: glyph k starts at address 5 * k.
    fn ld_f(&mut self, x: usize)
        requires
            old(self).wf(),
            x < 16,
        ensures
            final(self).wf(),
            final(self)@ == (MachineView {
                index: (old(self)@.regs[x as int] * 5) as u16,
                ..old(self)@
            }),
    {
        self.index = (self.registers[x] as u16) * 5;
    }

    /// Binary-coded decimal: Vx's hundreds, tens and ones digits stored
    /// at index, index + 1 and index + 2.
    fn ld_b(&mut self, x: usize)
        requires
            old(self).wf(),
            x < 16,
        ensures
            final(self).wf(),
            final(self)@ == (MachineView {
                mem: memory::spec_write(
                    memory::spec_write(
                        memory::spec_write(
                            old(self)@.mem,
                            old(self)@.index as int,
                            old(self)@.regs[x as int] / 100,
                        ),
                        old(self)@.index as int + 1,
                        (old(self)@.regs[x as int] / 10) % 10,
                    ),
                    old(self)@.index as int + 2,
                    old(self)@.regs[x as int] % 10,
                ),
                ..old(self)@
            }),
    {
        let value = self.registers[x];
        let base = self.index as usize;
        self.write_at(base, value / 100);
        self.write_at(base + 1, (value / 10) % 10);
        self.write_at(base + 2, value % 10);
    }

    /// One store into RAM at a possibly out-of-range address, which is
    /// then discarded.
    fn write_at(&mut self, addr: usize, value: u8)
        requires
            old(self).wf(),
        ensures
            final(self).wf(),
            final(self)@ == (MachineView {
                mem: memory::spec_write(old(self)@.mem, addr as int, value),
                ..old(self)@
            }),
    {
        if addr < memory::MEM_SIZE {
            self.memory.write(addr as u16, value);
        }
    }

    /// Store V0..Vx to RAM starting at the index register, then advance
    /// the index past the stored block.
    fn ld_mem(&mut self, x: usize)
        requires
            old(self).wf(),
            x < 16,
        ensures
            final(self).wf(),
            final(self)@ == (MachineView {
                mem: spec_store_regs(old(self)@.mem, old(self)@.index as int, old(self)@.regs, x as int + 1),
                index: old(self)@.index.wrapping_add((x + 1) as u16),
                ..old(self)@
            }),
    {
        let ghost m0 = self@;
        let base = self.index as usize;
        let mut i: usize = 0;
        while i <= x
            invariant
                m0.wf(),
                x < 16,
                i <= x + 1,
                base == m0.index,
                self.display@ == m0.disp,
                self.keyboard@ == m0.keys,
                self.registers@ == m0.regs,
                self.index == m0.index,
                self.program_counter == m0.pc,
                self.stack@ == m0.stack,
                self.delay_timer == m0.delay,
                self.sound_timer == m0.sound,
                self.memory@.len() == memory::MEM_SIZE,
                self.memory@ == spec_store_regs(m0.mem, m0.index as int, m0.regs, i as int),
            decreases x + 1 - i,
        {
            let v = self.registers[i];
            self.write_at(base + i, v);
            i = i + 1;
        }
        self.index = self.index.wrapping_add((x as u16) + 1);
    }

    /// Load V0..Vx from RAM starting at the index register, then advance
    /// the index past the loaded block.
    fn ld_reg_mem(&mut self, x: usize)
        requires
            old(self).wf(),
            x < 16,
        ensures
            final(self).wf(),
            final(self)@ == (MachineView {
                regs: spec_load_regs(old(self)@.regs, old(self)@.mem, old(self)@.index as int, x as int + 1),
                index: old(self)@.index.wrapping_add((x + 1) as u16),
                ..old(self)@
            }),
    {
        let ghost m0 = self@;
        let base = self.index as usize;
        let mut i: usize = 0;
        while i <= x
            invariant
                m0.wf(),
                x < 16,
                i <= x + 1,
                base == m0.index,
                self.memory@ == m0.mem,
                self.display@ == m0.disp,
                self.keyboard@ == m0.keys,
                self.index == m0.index,
                self.program_counter == m0.pc,
                self.stack@ == m0.stack,
                self.delay_timer == m0.delay,
                self.sound_timer == m0.sound,
                self.registers@.len() == 16,
                self.registers@ == spec_load_regs(m0.regs, m0.mem, m0.index as int, i as int),
            decreases x + 1 - i,
        {
            let a = base + i;
            let v = if a < memory::MEM_SIZE {
                self.memory.read(a as u16)
            } else {
                0
            };
            self.registers[i] = v;
            i = i + 1;
        }
        self.index = self.index.wrapping_add((x as u16) + 1);
    }
}

} // verus!
