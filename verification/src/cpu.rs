//! The processor: the index register, program counter, call stack, timers
//! and wait flag, owning the memory, registers, keypad and display, and the
//! fetch/decode/execute cycle over them.

use vstd::prelude::*;

use crate::display::blank_disp;
use crate::display::spec_collision;
use crate::display::spec_draw;
use crate::display::Display;
use crate::keys::Keys;
use crate::memory::word_at;
use crate::memory::Memory;
use crate::registers::Registers;
use crate::state::load_regs;
use crate::state::op_kk;
use crate::state::op_n;
use crate::state::op_nnn;
use crate::state::op_x;
use crate::state::op_y;
use crate::state::set_reg;
use crate::state::skip_if;
use crate::state::spec_exec;
use crate::state::spec_exec_alu;
use crate::state::spec_exec_fx;
use crate::state::store_regs;
use crate::state::sub8;
use crate::state::wf_state;
use crate::state::wrap16;
use crate::state::cycle_matches;
use crate::state::Fault;
use crate::state::State;

verus! {

/// The built-in font: sixteen 5-byte glyphs for the hexadecimal digits,
/// glyph `g` beginning at byte `5 * g`.
pub open spec fn font_seq() -> Seq<u8> {
    seq![
        0xF0u8, 0x90u8, 0x90u8, 0x90u8, 0xF0u8,
        0x20u8, 0x60u8, 0x20u8, 0x20u8, 0x70u8,
        0xF0u8, 0x10u8, 0xF0u8, 0x80u8, 0xF0u8,
        0xF0u8, 0x10u8, 0xF0u8, 0x10u8, 0xF0u8,
        0x90u8, 0x90u8, 0xF0u8, 0x10u8, 0x10u8,
        0xF0u8, 0x80u8, 0xF0u8, 0x10u8, 0xF0u8,
        0xF0u8, 0x80u8, 0xF0u8, 0x90u8, 0xF0u8,
        0xF0u8, 0x10u8, 0x20u8, 0x40u8, 0x40u8,
        0xF0u8, 0x90u8, 0xF0u8, 0x90u8, 0xF0u8,
        0xF0u8, 0x90u8, 0xF0u8, 0x10u8, 0xF0u8,
        0xF0u8, 0x90u8, 0xF0u8, 0x90u8, 0x90u8,
        0xE0u8, 0x90u8, 0xE0u8, 0x90u8, 0xE0u8,
        0xF0u8, 0x80u8, 0x80u8, 0x80u8, 0xF0u8,
        0xE0u8, 0x90u8, 0x90u8, 0x90u8, 0xE0u8,
        0xF0u8, 0x80u8, 0xF0u8, 0x80u8, 0xF0u8,
        0xF0u8, 0x80u8, 0xF0u8, 0x80u8, 0x80u8,
    ]
}

/// Memory after initialization: the font in bytes 0..80, the program from
/// 0x200 on, everything else as it was.
pub open spec fn load_mem(mem: Seq<u8>, prog: Seq<u8>) -> Seq<u8> {
    Seq::new(
        4096,
        |a: int|
            if 0 <= a < 80 {
                font_seq()[a]
            } else if 0x200 <= a < 0x200 + prog.len() {
                prog[a - 0x200]
            } else {
                mem[a]
            },
    )
}

/// The processor and everything it owns. Its view is the whole machine as a
/// `State`.
pub struct Cpu {
    /// The index register I.
    pub i: u16,
    /// The program counter.
    pub pc: u16,
    /// The sixteen call-stack slots; `sp` of them are in use.
    pub stack: Vec<u16>,
    /// The stack pointer: the number of return addresses on the stack.
    pub sp: u8,
    /// The delay timer; the host counts it down.
    pub delay: u8,
    /// The sound timer; the host counts it down.
    pub sound: u8,
    /// The sixteen general-purpose registers.
    pub registers: Registers,
    /// The 4096 bytes of memory.
    pub memory: Memory,
    /// The sixteen key states; the host writes them.
    pub keys: Keys,
    /// Set by the wait-for-key opcode; the host decides whether to keep
    /// stepping while it stands, and clears it when a key event arrives.
    pub waiting_for_input: bool,
    /// The framebuffer.
    pub display: Display,
}

impl View for Cpu {
    type V = State;

    open spec fn view(&self) -> State {
        State {
            mem: self.memory@,
            regs: self.registers@,
            stack: self.stack@,
            sp: self.sp,
            pc: self.pc,
            i: self.i,
            delay: self.delay,
            sound: self.sound,
            keys: self.keys@,
            waiting: self.waiting_for_input,
            disp: self.display@,
        }
    }
}

/// Relies on rand::random: a byte drawn uniformly from 0..=255 by the
/// thread-local generator. Nothing is promised of the value; callers state
/// what holds whatever comes back.
#[verifier::external_body]
fn random_byte() -> u8 {
    rand::random()
}

impl Cpu {
    /// Every component has its fixed size; see `wf_state`.
    pub open spec fn wf(&self) -> bool {
        wf_state(self@)
    }

    /// A machine at power-on around the given memory and display: empty
    /// stack, zeroed registers and timers, no key pressed, the program
    /// counter at the conventional load address 0x200.
    pub fn new(memory: Memory, display: Display) -> (c: Cpu)
        requires
            memory.wf(),
            display.wf(),
        ensures
            c.wf(),
            c@.mem == memory@,
            c@.disp == display@,
            c@.regs == Seq::new(16, |k: int| 0u8),
            c@.stack == Seq::new(16, |k: int| 0u16),
            c@.keys == Seq::new(16, |k: int| false),
            c@.sp == 0,
            c@.pc == 0x200,
            c@.i == 0,
            c@.delay == 0,
            c@.sound == 0,
            c@.waiting == false,
    {
        let mut stack: Vec<u16> = Vec::new();
        let mut k: usize = 0;
        while k < 16
            invariant
                k <= 16,
                stack@.len() == k,
                forall|j: int| 0 <= j < k ==> stack@[j] == 0u16,
            decreases 16 - k,
        {
            stack.push(0);
            k += 1;
        }
        let registers = Registers::new();
        let keys = Keys::new();
        let c = Cpu {
            i: 0,
            pc: 0x200,
            stack,
            sp: 0,
            delay: 0,
            sound: 0,
            registers,
            memory,
            keys,
            waiting_for_input: false,
            display,
        };
        proof {
            assert(c@.regs =~= Seq::new(16, |j: int| 0u8));
            assert(c@.stack =~= Seq::new(16, |j: int| 0u16));
            assert(c@.keys =~= Seq::new(16, |j: int| false));
        }
        c
    }

    /// Copy the built-in font to addresses 0..80 and the program image to
    /// 0x200 on; nothing else moves.
    pub fn init(&mut self, buffer: Vec<u8>)
        requires
            old(self).wf(),
            buffer@.len() <= 3584,
        ensures
            final(self).wf(),
            final(self)@ == (State { mem: load_mem(old(self)@.mem, buffer@), ..old(self)@ }),
    {
        let ghost pre: State = self@;
        let font: Vec<u8> = vec![
            0xF0u8, 0x90u8, 0x90u8, 0x90u8, 0xF0u8,
            0x20u8, 0x60u8, 0x20u8, 0x20u8, 0x70u8,
            0xF0u8, 0x10u8, 0xF0u8, 0x80u8, 0xF0u8,
            0xF0u8, 0x10u8, 0xF0u8, 0x10u8, 0xF0u8,
            0x90u8, 0x90u8, 0xF0u8, 0x10u8, 0x10u8,
            0xF0u8, 0x80u8, 0xF0u8, 0x10u8, 0xF0u8,
            0xF0u8, 0x80u8, 0xF0u8, 0x90u8, 0xF0u8,
            0xF0u8, 0x10u8, 0x20u8, 0x40u8, 0x40u8,
            0xF0u8, 0x90u8, 0xF0u8, 0x90u8, 0xF0u8,
            0xF0u8, 0x90u8, 0xF0u8, 0x10u8, 0xF0u8,
            0xF0u8, 0x90u8, 0xF0u8, 0x90u8, 0x90u8,
            0xE0u8, 0x90u8, 0xE0u8, 0x90u8, 0xE0u8,
            0xF0u8, 0x80u8, 0x80u8, 0x80u8, 0xF0u8,
            0xE0u8, 0x90u8, 0x90u8, 0x90u8, 0xE0u8,
            0xF0u8, 0x80u8, 0xF0u8, 0x80u8, 0xF0u8,
            0xF0u8, 0x80u8, 0xF0u8, 0x80u8, 0x80u8,
        ];
        proof {
            assert(font@ =~= font_seq());
        }
        let mut k: usize = 0;
        while k < 80
            invariant
                k <= 80,
                font@ == font_seq(),
                wf_state(pre),
                self@ == (State { mem: self@.mem, ..pre }),
                self@.mem.len() == 4096,
                forall|a: int| 0 <= a < k ==> self@.mem[a] == font_seq()[a],
                forall|a: int| k <= a < 4096 ==> self@.mem[a] == pre.mem[a],
            decreases 80 - k,
        {
            self.memory.write_u8(k as u16, font[k]);
            proof {
                assert(self@ =~~= State { mem: self@.mem, ..pre });
            }
            k += 1;
        }
        let mut j: usize = 0;
        let count = buffer.len();
        while j < count
            invariant
                j <= count,
                count == buffer@.len(),
                count <= 3584,
                wf_state(pre),
                self@ == (State { mem: self@.mem, ..pre }),
                self@.mem.len() == 4096,
                forall|a: int| 0 <= a < 80 ==> self@.mem[a] == font_seq()[a],
                forall|a: int| 80 <= a < 0x200 ==> self@.mem[a] == pre.mem[a],
                forall|a: int| 0x200 <= a < 0x200 + j ==> self@.mem[a] == buffer@[a - 0x200],
                forall|a: int| 0x200 + j <= a < 4096 ==> self@.mem[a] == pre.mem[a],
            decreases count - j,
        {
            self.memory.write_u8((0x200 + j) as u16, buffer[j]);
            proof {
                assert(self@ =~~= State { mem: self@.mem, ..pre });
            }
            j += 1;
        }
        proof {
            assert(self@.mem =~= load_mem(pre.mem, buffer@));
            assert(self@ =~~= State { mem: load_mem(pre.mem, buffer@), ..pre });
        }
    }

    /// The big-endian instruction word whose high byte sits at `location`.
    pub fn fetch(&self, location: u16) -> (opcode: u16)
        requires
            self.wf(),
            location + 1 < 4096,
        ensures
            opcode == word_at(self@.mem, location as int),
    {
        self.memory.read_u16(location)
    }

    /// Move the program counter one more instruction width, wrapping at 16
    /// bits.
    fn advance_pc(&mut self)
        ensures
            final(self)@ == (State { pc: wrap16(old(self)@.pc + 2), ..old(self)@ }),
    {
        let npc: u32 = (self.pc as u32 + 2) % 0x10000;
        self.pc = npc as u16;
        proof {
            assert(self@ =~~= (State { pc: wrap16(old(self)@.pc + 2), ..old(self)@ }));
        }
    }

    /// Execute one instruction of the arithmetic/logic family `8xyk`,
    /// exactly as `spec_exec_alu` says; on a fault nothing changes.
    fn exec_alu(&mut self, opcode: u16) -> (r: Result<(), Fault>)
        requires
            old(self).wf(),
            0x8000 <= opcode < 0x9000,
        ensures
            final(self).wf(),
            (match spec_exec_alu(old(self)@, opcode) {
                Ok(s2) => r is Ok && final(self)@ == s2,
                Err(f) => r == Err::<(), Fault>(f) && final(self)@ == old(self)@,
            }),
    {
        let x: u8 = ((opcode / 0x100) % 16) as u8;
        let y: u8 = ((opcode / 0x10) % 16) as u8;
        let n: u16 = opcode % 16;
        let vx = self.registers.get(x);
        let vy = self.registers.get(y);
        if n == 0 {
            self.registers.set(x, vy);
            proof {
                assert(self@ =~~= set_reg(old(self)@, x as int, vy));
            }
            Ok(())
        } else if n == 1 {
            self.registers.set(x, vx | vy);
            proof {
                assert(self@ =~~= set_reg(old(self)@, x as int, vx | vy));
            }
            Ok(())
        } else if n == 2 {
            self.registers.set(x, vx & vy);
            proof {
                assert(self@ =~~= set_reg(old(self)@, x as int, vx & vy));
            }
            Ok(())
        } else if n == 3 {
            self.registers.set(x, vx ^ vy);
            proof {
                assert(self@ =~~= set_reg(old(self)@, x as int, vx ^ vy));
            }
            Ok(())
        } else if n == 4 {
            let sum: u16 = vx as u16 + vy as u16;
            self.registers.set(x, (sum % 256) as u8);
            self.registers.set(15, if sum > 255 { 1 } else { 0 });
            proof {
                assert(self@ =~~= (State {
                    regs: old(self)@.regs.update(x as int, ((vx + vy) % 256) as u8).update(
                        15,
                        if vx + vy > 255 { 1u8 } else { 0u8 },
                    ),
                    ..old(self)@
                }));
            }
            Ok(())
        } else if n == 5 {
            self.registers.set(15, if vx > vy { 1 } else { 0 });
            let diff: u8 = if vx >= vy { vx - vy } else { ((vx as u16 + 256) - vy as u16) as u8 };
            self.registers.set(x, diff);
            proof {
                assert(diff == sub8(vx, vy));
                assert(self@ =~~= (State {
                    regs: old(self)@.regs.update(15, if vx > vy { 1u8 } else { 0u8 }).update(
                        x as int,
                        sub8(vx, vy),
                    ),
                    ..old(self)@
                }));
            }
            Ok(())
        } else if n == 6 {
            self.registers.set(15, vx % 2);
            self.registers.set(x, vx / 2);
            proof {
                assert(self@ =~~= (State {
                    regs: old(self)@.regs.update(15, (vx % 2) as u8).update(
                        x as int,
                        (vx / 2) as u8,
                    ),
                    ..old(self)@
                }));
            }
            Ok(())
        } else if n == 7 {
            self.registers.set(15, if vy > vx { 1 } else { 0 });
            let diff: u8 = if vy >= vx { vy - vx } else { ((vy as u16 + 256) - vx as u16) as u8 };
            self.registers.set(x, diff);
            proof {
                assert(diff == sub8(vy, vx));
                assert(self@ =~~= (State {
                    regs: old(self)@.regs.update(15, if vy > vx { 1u8 } else { 0u8 }).update(
                        x as int,
                        sub8(vy, vx),
                    ),
                    ..old(self)@
                }));
            }
            Ok(())
        } else if n == 0xE {
            self.registers.set(15, vx / 128);
            let doubled: u16 = (vx as u16 * 2) % 256;
            self.registers.set(x, doubled as u8);
            proof {
                assert(self@ =~~= (State {
                    regs: old(self)@.regs.update(15, (vx / 128) as u8).update(
                        x as int,
                        ((vx * 2) % 256) as u8,
                    ),
                    ..old(self)@
                }));
            }
            Ok(())
        } else {
            Err(Fault::UnsupportedInstruction)
        }
    }

    /// Execute one instruction of the `Fxkk` family, exactly as
    /// `spec_exec_fx` says; on a fault nothing changes.
    fn exec_fx(&mut self, opcode: u16) -> (r: Result<(), Fault>)
        requires
            old(self).wf(),
            0xF000 <= opcode,
        ensures
            final(self).wf(),
            (match spec_exec_fx(old(self)@, opcode) {
                Ok(s2) => r is Ok && final(self)@ == s2,
                Err(f) => r == Err::<(), Fault>(f) && final(self)@ == old(self)@,
            }),
    {
        let x: u8 = ((opcode / 0x100) % 16) as u8;
        let kk: u16 = opcode % 0x100;
        let vx = self.registers.get(x);
        if kk == 0x07 {
            let d = self.delay;
            self.registers.set(x, d);
            proof {
                assert(self@ =~~= set_reg(old(self)@, x as int, old(self)@.delay));
            }
            Ok(())
        } else if kk == 0x0A {
            self.waiting_for_input = true;
            proof {
                assert(self@ =~~= (State { waiting: true, ..old(self)@ }));
            }
            Ok(())
        } else if kk == 0x15 {
            self.delay = vx;
            proof {
                assert(self@ =~~= (State { delay: vx, ..old(self)@ }));
            }
            Ok(())
        } else if kk == 0x18 {
            self.sound = vx;
            proof {
                assert(self@ =~~= (State { sound: vx, ..old(self)@ }));
            }
            Ok(())
        } else if kk == 0x1E {
            let ni: u32 = (self.i as u32 + vx as u32) % 0x10000;
            self.i = ni as u16;
            proof {
                assert(self@ =~~= (State { i: wrap16(old(self)@.i + vx), ..old(self)@ }));
            }
            Ok(())
        } else if kk == 0x29 {
            self.i = vx as u16 * 5;
            proof {
                assert(self@ =~~= (State { i: (vx * 5) as u16, ..old(self)@ }));
            }
            Ok(())
        } else if kk == 0x33 {
            if self.i >= 4094 {
                return Err(Fault::AddressOutOfRange);
            }
            let base = self.i;
            self.memory.write_u8(base, vx / 100);
            self.memory.write_u8(base + 1, (vx % 100) / 10);
            self.memory.write_u8(base + 2, vx % 10);
            proof {
                assert(self@ =~~= (State {
                    mem: old(self)@.mem.update(old(self)@.i as int, (vx / 100) as u8).update(
                        old(self)@.i + 1,
                        ((vx % 100) / 10) as u8,
                    ).update(old(self)@.i + 2, (vx % 10) as u8),
                    ..old(self)@
                }));
            }
            Ok(())
        } else if kk == 0x55 {
            if self.i as u32 + x as u32 >= 4096 {
                return Err(Fault::AddressOutOfRange);
            }
            let base = self.i;
            let ghost pre: State = self@;
            proof {
                assert(pre.mem =~= store_regs(pre.mem, pre.regs, base as int, -1));
            }
            let mut reg: u8 = 0;
            while reg < x + 1
                invariant
                    reg <= x + 1,
                    x < 16,
                    base == pre.i,
                    base as int + x < 4096,
                    wf_state(pre),
                    self@ == (State { mem: self@.mem, ..pre }),
                    self@.mem.len() == 4096,
                    self@.mem == store_regs(pre.mem, pre.regs, base as int, reg - 1),
                decreases x + 1 - reg,
            {
                let value = self.registers.get(reg);
                self.memory.write_u8(base + reg as u16, value);
                proof {
                    assert(self@.mem =~= store_regs(pre.mem, pre.regs, base as int, reg as int));
                    assert(self@ =~~= (State { mem: self@.mem, ..pre }));
                }
                reg += 1;
            }
            proof {
                assert(self@ =~~= (State {
                    mem: store_regs(pre.mem, pre.regs, pre.i as int, op_x(opcode)),
                    ..pre
                }));
            }
            Ok(())
        } else if kk == 0x65 {
            if self.i as u32 + x as u32 >= 4096 {
                return Err(Fault::AddressOutOfRange);
            }
            let base = self.i;
            let ghost pre: State = self@;
            proof {
                assert(pre.regs =~= load_regs(pre.regs, pre.mem, base as int, -1));
            }
            let mut reg: u8 = 0;
            while reg < x + 1
                invariant
                    reg <= x + 1,
                    x < 16,
                    base == pre.i,
                    base as int + x < 4096,
                    wf_state(pre),
                    self@ == (State { regs: self@.regs, ..pre }),
                    self@.regs.len() == 16,
                    self@.regs == load_regs(pre.regs, pre.mem, base as int, reg - 1),
                decreases x + 1 - reg,
            {
                let value = self.memory.read_u8(base + reg as u16);
                self.registers.set(reg, value);
                proof {
                    assert(self@.regs =~= load_regs(pre.regs, pre.mem, base as int, reg as int));
                    assert(self@ =~~= (State { regs: self@.regs, ..pre }));
                }
                reg += 1;
            }
            proof {
                assert(self@ =~~= (State {
                    regs: load_regs(pre.regs, pre.mem, pre.i as int, op_x(opcode)),
                    ..pre
                }));
            }
            Ok(())
        } else {
            Err(Fault::UnsupportedInstruction)
        }
    }

    /// Decode one instruction word, its operand fields in its nibbles, and
    /// execute it against a machine whose program counter has already moved
    /// past it. `rnd` is the byte used by the random opcode, so that
    /// execution is a function of its arguments alone. On `Ok` the machine
    /// moved exactly as `spec_exec` says; on a fault nothing changed.
    pub fn decode_and_execute(&mut self, opcode: u16, rnd: u8) -> (r: Result<(), Fault>)
        requires
            old(self).wf(),
        ensures
            final(self).wf(),
            (match spec_exec(old(self)@, opcode, rnd) {
                Ok(s2) => r is Ok && final(self)@ == s2,
                Err(f) => r == Err::<(), Fault>(f) && final(self)@ == old(self)@,
            }),
    {
        let x: u8 = ((opcode / 0x100) % 16) as u8;
        let y: u8 = ((opcode / 0x10) % 16) as u8;
        let kk: u8 = (opcode % 0x100) as u8;
        let nnn: u16 = opcode % 0x1000;
        let n: u8 = (opcode % 0x10) as u8;
        if opcode == 0x00E0 {
            self.display.clear();
            proof {
                assert(self@ =~~= (State { disp: blank_disp(), ..old(self)@ }));
            }
            Ok(())
        } else if opcode == 0x00EE {
            if self.sp == 0 {
                return Err(Fault::StackUnderflow);
            }
            let idx = (self.sp - 1) as usize;
            self.pc = self.stack[idx];
            self.sp = self.sp - 1;
            proof {
                assert(self@ =~~= (State {
                    pc: old(self)@.stack[old(self)@.sp - 1],
                    sp: (old(self)@.sp - 1) as u8,
                    ..old(self)@
                }));
            }
            Ok(())
        } else if 0x1000 <= opcode && opcode < 0x2000 {
            self.pc = nnn;
            proof {
                assert(self@ =~~= (State { pc: op_nnn(opcode), ..old(self)@ }));
            }
            Ok(())
        } else if 0x2000 <= opcode && opcode < 0x3000 {
            if self.sp >= 16 {
                return Err(Fault::StackOverflow);
            }
            let idx = self.sp as usize;
            self.stack[idx] = self.pc;
            self.sp = self.sp + 1;
            self.pc = nnn;
            proof {
                assert(self@ =~~= (State {
                    stack: old(self)@.stack.update(old(self)@.sp as int, old(self)@.pc),
                    sp: (old(self)@.sp + 1) as u8,
                    pc: op_nnn(opcode),
                    ..old(self)@
                }));
            }
            Ok(())
        } else if 0x3000 <= opcode && opcode < 0x4000 {
            let vx = self.registers.get(x);
            if vx == kk {
                self.advance_pc();
            }
            proof {
                assert(self@ =~~= skip_if(old(self)@, vx == kk));
            }
            Ok(())
        } else if 0x4000 <= opcode && opcode < 0x5000 {
            let vx = self.registers.get(x);
            if vx != kk {
                self.advance_pc();
            }
            proof {
                assert(self@ =~~= skip_if(old(self)@, vx != kk));
            }
            Ok(())
        } else if 0x5000 <= opcode && opcode < 0x6000 {
            if n != 0 {
                return Err(Fault::UnsupportedInstruction);
            }
            let vx = self.registers.get(x);
            let vy = self.registers.get(y);
            if vx == vy {
                self.advance_pc();
            }
            proof {
                assert(self@ =~~= skip_if(old(self)@, vx == vy));
            }
            Ok(())
        } else if 0x6000 <= opcode && opcode < 0x7000 {
            self.registers.set(x, kk);
            proof {
                assert(self@ =~~= set_reg(old(self)@, x as int, kk));
            }
            Ok(())
        } else if 0x7000 <= opcode && opcode < 0x8000 {
            let vx = self.registers.get(x);
            let sum: u16 = vx as u16 + kk as u16;
            self.registers.set(x, (sum % 256) as u8);
            proof {
                assert(self@ =~~= set_reg(old(self)@, x as int, ((vx + kk) % 256) as u8));
            }
            Ok(())
        } else if 0x8000 <= opcode && opcode < 0x9000 {
            self.exec_alu(opcode)
        } else if 0x9000 <= opcode && opcode < 0xA000 {
            if n != 0 {
                return Err(Fault::UnsupportedInstruction);
            }
            let vx = self.registers.get(x);
            let vy = self.registers.get(y);
            if vx != vy {
                self.advance_pc();
            }
            proof {
                assert(self@ =~~= skip_if(old(self)@, vx != vy));
            }
            Ok(())
        } else if 0xA000 <= opcode && opcode < 0xB000 {
            self.i = nnn;
            proof {
                assert(self@ =~~= (State { i: op_nnn(opcode), ..old(self)@ }));
            }
            Ok(())
        } else if 0xB000 <= opcode && opcode < 0xC000 {
            let v0 = self.registers.get(0);
            self.pc = nnn + v0 as u16;
            proof {
                assert(self@ =~~= (State {
                    pc: (op_nnn(opcode) + old(self)@.regs[0]) as u16,
                    ..old(self)@
                }));
            }
            Ok(())
        } else if 0xC000 <= opcode && opcode < 0xD000 {
            self.registers.set(x, rnd & kk);
            proof {
                assert(self@ =~~= set_reg(old(self)@, x as int, rnd & op_kk(opcode)));
            }
            Ok(())
        } else if 0xD000 <= opcode && opcode < 0xE000 {
            let vx = self.registers.get(x);
            let vy = self.registers.get(y);
            if self.i as u32 + n as u32 > 4096 {
                return Err(Fault::AddressOutOfRange);
            }
            let ghost pre: State = self@;
            let mut sprite: Vec<u8> = Vec::new();
            let mut t: u16 = 0;
            proof {
                assert(sprite@ =~= pre.mem.subrange(pre.i as int, pre.i as int));
            }
            while t < n as u16
                invariant
                    t <= n as u16,
                    n < 16,
                    self@ == pre,
                    wf_state(pre),
                    pre.i + n <= 4096,
                    sprite@ == pre.mem.subrange(pre.i as int, pre.i + t),
                decreases n - t,
            {
                let b = self.memory.read_u8(self.i + t);
                sprite.push(b);
                proof {
                    assert(sprite@ =~= pre.mem.subrange(pre.i as int, pre.i + t + 1));
                }
                t += 1;
            }
            let sx = vx % 64;
            let sy = vy % 32;
            let collision = self.display.draw_sprite(sx, sy, &sprite);
            self.registers.set(15, if collision { 1 } else { 0 });
            proof {
                let spr = pre.mem.subrange(pre.i as int, pre.i + op_n(opcode));
                assert(self@ =~~= (State {
                    disp: spec_draw(pre.disp, (pre.regs[op_x(opcode)] % 64) as int,
                        (pre.regs[op_y(opcode)] % 32) as int, spr),
                    regs: pre.regs.update(15, if spec_collision(pre.disp,
                        (pre.regs[op_x(opcode)] % 64) as int,
                        (pre.regs[op_y(opcode)] % 32) as int, spr) { 1u8 } else { 0u8 }),
                    ..pre
                }));
            }
            Ok(())
        } else if 0xE000 <= opcode && opcode < 0xF000 {
            let vx = self.registers.get(x);
            if kk == 0x9E {
                if vx >= 16 {
                    return Err(Fault::AddressOutOfRange);
                }
                let pressed = self.keys.is_pressed(vx);
                if pressed {
                    self.advance_pc();
                }
                proof {
                    assert(self@ =~~= skip_if(old(self)@, old(self)@.keys[vx as int]));
                }
                Ok(())
            } else if kk == 0xA1 {
                if vx >= 16 {
                    return Err(Fault::AddressOutOfRange);
                }
                let pressed = self.keys.is_pressed(vx);
                if !pressed {
                    self.advance_pc();
                }
                proof {
                    assert(self@ =~~= skip_if(old(self)@, !old(self)@.keys[vx as int]));
                }
                Ok(())
            } else {
                Err(Fault::UnsupportedInstruction)
            }
        } else if 0xF000 <= opcode {
            self.exec_fx(opcode)
        } else {
            Err(Fault::UnsupportedInstruction)
        }
    }

    /// One whole step: fetch the instruction at the program counter,
    /// advance the counter by one instruction width, draw a random byte,
    /// and execute. On a fault the machine is left exactly as it was.
    pub fn cycle(&mut self) -> (r: Result<(), Fault>)
        requires
            old(self).wf(),
        ensures
            final(self).wf(),
            exists|rnd: u8| #[trigger] cycle_matches(old(self)@, final(self)@, r, rnd),
    {
        if self.pc >= 4095 {
            proof {
                assert(cycle_matches(self@, self@, Err::<(), Fault>(Fault::AddressOutOfRange), 0u8));
            }
            return Err(Fault::AddressOutOfRange);
        }
        let pc0 = self.pc;
        let opcode = self.fetch(pc0);
        self.pc = pc0 + 2;
        proof {
            assert(self@ =~~= (State { pc: (pc0 + 2) as u16, ..old(self)@ }));
        }
        let rnd = random_byte();
        let result = self.decode_and_execute(opcode, rnd);
        if result.is_err() {
            self.pc = pc0;
            proof {
                assert(self@ =~~= old(self)@);
            }
        }
        proof {
            assert(cycle_matches(old(self)@, self@, result, rnd));
        }
        result
    }
}

} // verus!
