//! The machine as mathematics: a ghost mirror of the whole emulator, the
//! faults that stop it, and the step function that gives every opcode its
//! meaning. The executable interpreter is proved to follow `spec_exec` and
//! `spec_cycle` exactly.

use vstd::prelude::*;

use crate::display::blank_disp;
use crate::display::spec_collision;
use crate::display::spec_draw;
use crate::display::wf_disp;

verus! {

/// A fatal condition that ends the run. No fault is recoverable: a program
/// that raises one has gone outside the machine's protocol.
#[derive(Clone, Copy, Debug, PartialEq, Eq, Structural)]
pub enum Fault {
    /// The fetched opcode matches no known instruction family.
    UnsupportedInstruction,
    /// A return was executed with an empty call stack.
    StackUnderflow,
    /// A call was executed with the call stack already 16 deep.
    StackOverflow,
    /// An access outside a component's bounds: a memory address at or beyond
    /// 4096, or a key index at or beyond 16.
    AddressOutOfRange,
}

/// Every component of the machine as a plain mathematical value.
#[verifier::ext_equal]
pub ghost struct State {
    /// The 4096 memory bytes.
    pub mem: Seq<u8>,
    /// The sixteen registers V0..VF.
    pub regs: Seq<u8>,
    /// The sixteen call-stack slots.
    pub stack: Seq<u16>,
    /// The stack pointer: the number of return addresses on the stack.
    pub sp: u8,
    /// The program counter.
    pub pc: u16,
    /// The index register I.
    pub i: u16,
    /// The delay timer.
    pub delay: u8,
    /// The sound timer.
    pub sound: u8,
    /// The sixteen key states.
    pub keys: Seq<bool>,
    /// Whether the machine has met the wait-for-key opcode and not been
    /// resumed by the host.
    pub waiting: bool,
    /// The 64x32 framebuffer, addressed `[x][y]`.
    pub disp: Seq<Seq<u8>>,
}

/// Every component has its fixed size and the framebuffer holds only 0s
/// and 1s.
pub open spec fn wf_state(s: State) -> bool {
    &&& s.mem.len() == 4096
    &&& s.regs.len() == 16
    &&& s.stack.len() == 16
    &&& s.sp <= 16
    &&& s.keys.len() == 16
    &&& wf_disp(s.disp)
}

/// The register index in bits 8..=11 of an opcode.
pub open spec fn op_x(op: u16) -> int {
    ((op / 0x100) % 16) as int
}

/// The register index in bits 4..=7 of an opcode.
pub open spec fn op_y(op: u16) -> int {
    ((op / 0x10) % 16) as int
}

/// The immediate byte in the low 8 bits of an opcode.
pub open spec fn op_kk(op: u16) -> u8 {
    (op % 0x100) as u8
}

/// The address in the low 12 bits of an opcode.
pub open spec fn op_nnn(op: u16) -> u16 {
    (op % 0x1000) as u16
}

/// The low nibble of an opcode: a sprite height or sub-opcode.
pub open spec fn op_n(op: u16) -> int {
    (op % 0x10) as int
}

/// A 16-bit value wrapped into u16 range.
pub open spec fn wrap16(v: int) -> u16 {
    (v % 0x10000) as u16
}

/// 8-bit wraparound subtraction.
pub open spec fn sub8(a: u8, b: u8) -> u8 {
    if a >= b {
        (a - b) as u8
    } else {
        (a + 256 - b) as u8
    }
}

/// The state with register `r` set to `v`.
pub open spec fn set_reg(s: State, r: int, v: u8) -> State {
    State { regs: s.regs.update(r, v), ..s }
}

/// The state after a conditional skip: the program counter moves one more
/// instruction width when `cond` holds.
pub open spec fn skip_if(s: State, cond: bool) -> State {
    if cond {
        State { pc: wrap16(s.pc + 2), ..s }
    } else {
        s
    }
}

/// Memory with registers `V0..=Vx` stored at `base..`: the byte at
/// `base + r` becomes the value of register `r`.
pub open spec fn store_regs(mem: Seq<u8>, regs: Seq<u8>, base: int, x: int) -> Seq<u8> {
    Seq::new(
        mem.len(),
        |a: int|
            if base <= a <= base + x {
                regs[a - base]
            } else {
                mem[a]
            },
    )
}

/// Registers with `V0..=Vx` loaded from memory at `base..`: register `r`
/// becomes the byte at `base + r`, the higher registers keep their values.
pub open spec fn load_regs(regs: Seq<u8>, mem: Seq<u8>, base: int, x: int) -> Seq<u8> {
    Seq::new(
        regs.len(),
        |r: int|
            if r <= x {
                mem[base + r]
            } else {
                regs[r]
            },
    )
}

/// The meaning of the arithmetic/logic family `8xyk`. The flag register VF
/// is overwritten, never accumulated; where VF is itself the destination,
/// the write order decides which value it keeps, exactly as below.
pub open spec fn spec_exec_alu(s: State, op: u16) -> Result<State, Fault> {
    let x = op_x(op);
    let y = op_y(op);
    let vx = s.regs[x];
    let vy = s.regs[y];
    let k = op_n(op);
    if k == 0 {
        Ok(set_reg(s, x, vy))
    } else if k == 1 {
        Ok(set_reg(s, x, vx | vy))
    } else if k == 2 {
        Ok(set_reg(s, x, vx & vy))
    } else if k == 3 {
        Ok(set_reg(s, x, vx ^ vy))
    } else if k == 4 {
        Ok(
            State {
                regs: s.regs.update(x, ((vx + vy) % 256) as u8).update(
                    15,
                    if vx + vy > 255 {
                        1u8
                    } else {
                        0u8
                    },
                ),
                ..s
            },
        )
    } else if k == 5 {
        Ok(
            State {
                regs: s.regs.update(
                    15,
                    if vx > vy {
                        1u8
                    } else {
                        0u8
                    },
                ).update(x, sub8(vx, vy)),
                ..s
            },
        )
    } else if k == 6 {
        Ok(State { regs: s.regs.update(15, (vx % 2) as u8).update(x, (vx / 2) as u8), ..s })
    } else if k == 7 {
        Ok(
            State {
                regs: s.regs.update(
                    15,
                    if vy > vx {
                        1u8
                    } else {
                        0u8
                    },
                ).update(x, sub8(vy, vx)),
                ..s
            },
        )
    } else if k == 0xE {
        Ok(
            State {
                regs: s.regs.update(15, (vx / 128) as u8).update(x, ((vx * 2) % 256) as u8),
                ..s
            },
        )
    } else {
        Err(Fault::UnsupportedInstruction)
    }
}

/// The meaning of the `Fxkk` family: timers, the index register, the font,
/// binary-coded decimal, and the register dump and load.
pub open spec fn spec_exec_fx(s: State, op: u16) -> Result<State, Fault> {
    let x = op_x(op);
    let vx = s.regs[x];
    let kk = op_kk(op);
    if kk == 0x07 {
        Ok(set_reg(s, x, s.delay))
    } else if kk == 0x0A {
        Ok(State { waiting: true, ..s })
    } else if kk == 0x15 {
        Ok(State { delay: vx, ..s })
    } else if kk == 0x18 {
        Ok(State { sound: vx, ..s })
    } else if kk == 0x1E {
        Ok(State { i: wrap16(s.i + vx), ..s })
    } else if kk == 0x29 {
        Ok(State { i: (vx * 5) as u16, ..s })
    } else if kk == 0x33 {
        if s.i + 2 >= 4096 {
            Err(Fault::AddressOutOfRange)
        } else {
            Ok(
                State {
                    mem: s.mem.update(s.i as int, (vx / 100) as u8).update(
                        s.i + 1,
                        ((vx % 100) / 10) as u8,
                    ).update(s.i + 2, (vx % 10) as u8),
                    ..s
                },
            )
        }
    } else if kk == 0x55 {
        if s.i + x >= 4096 {
            Err(Fault::AddressOutOfRange)
        } else {
            Ok(State { mem: store_regs(s.mem, s.regs, s.i as int, x), ..s })
        }
    } else if kk == 0x65 {
        if s.i + x >= 4096 {
            Err(Fault::AddressOutOfRange)
        } else {
            Ok(State { regs: load_regs(s.regs, s.mem, s.i as int, x), ..s })
        }
    } else {
        Err(Fault::UnsupportedInstruction)
    }
}

/// The meaning of one decoded instruction, executed against a state whose
/// program counter has already moved past it. `rnd` is the byte drawn for
/// the random opcode; every other family ignores it. `Err` is a fatal
/// fault and carries no state: a faulting step changes nothing.
pub open spec fn spec_exec(s: State, op: u16, rnd: u8) -> Result<State, Fault> {
    let x = op_x(op);
    let y = op_y(op);
    let kk = op_kk(op);
    let nnn = op_nnn(op);
    let n = op_n(op);
    let vx = s.regs[x];
    let vy = s.regs[y];
    if op == 0x00E0 {
        Ok(State { disp: blank_disp(), ..s })
    } else if op == 0x00EE {
        if s.sp == 0 {
            Err(Fault::StackUnderflow)
        } else {
            Ok(State { pc: s.stack[s.sp - 1], sp: (s.sp - 1) as u8, ..s })
        }
    } else if 0x1000 <= op && op < 0x2000 {
        Ok(State { pc: nnn, ..s })
    } else if 0x2000 <= op && op < 0x3000 {
        if s.sp >= 16 {
            Err(Fault::StackOverflow)
        } else {
            Ok(State { stack: s.stack.update(s.sp as int, s.pc), sp: (s.sp + 1) as u8, pc: nnn, ..s })
        }
    } else if 0x3000 <= op && op < 0x4000 {
        Ok(skip_if(s, vx == kk))
    } else if 0x4000 <= op && op < 0x5000 {
        Ok(skip_if(s, vx != kk))
    } else if 0x5000 <= op && op < 0x6000 {
        if n == 0 {
            Ok(skip_if(s, vx == vy))
        } else {
            Err(Fault::UnsupportedInstruction)
        }
    } else if 0x6000 <= op && op < 0x7000 {
        Ok(set_reg(s, x, kk))
    } else if 0x7000 <= op && op < 0x8000 {
        Ok(set_reg(s, x, ((vx + kk) % 256) as u8))
    } else if 0x8000 <= op && op < 0x9000 {
        spec_exec_alu(s, op)
    } else if 0x9000 <= op && op < 0xA000 {
        if n == 0 {
            Ok(skip_if(s, vx != vy))
        } else {
            Err(Fault::UnsupportedInstruction)
        }
    } else if 0xA000 <= op && op < 0xB000 {
        Ok(State { i: nnn, ..s })
    } else if 0xB000 <= op && op < 0xC000 {
        Ok(State { pc: (nnn + s.regs[0]) as u16, ..s })
    } else if 0xC000 <= op && op < 0xD000 {
        Ok(set_reg(s, x, rnd & kk))
    } else if 0xD000 <= op && op < 0xE000 {
        if s.i + n > 4096 {
            Err(Fault::AddressOutOfRange)
        } else {
            let spr = s.mem.subrange(s.i as int, s.i + n);
            let sx = (vx % 64) as int;
            let sy = (vy % 32) as int;
            Ok(
                State {
                    disp: spec_draw(s.disp, sx, sy, spr),
                    regs: s.regs.update(
                        15,
                        if spec_collision(s.disp, sx, sy, spr) {
                            1u8
                        } else {
                            0u8
                        },
                    ),
                    ..s
                },
            )
        }
    } else if 0xE000 <= op && op < 0xF000 {
        if kk == 0x9E {
            if vx >= 16 {
                Err(Fault::AddressOutOfRange)
            } else {
                Ok(skip_if(s, s.keys[vx as int]))
            }
        } else if kk == 0xA1 {
            if vx >= 16 {
                Err(Fault::AddressOutOfRange)
            } else {
                Ok(skip_if(s, !s.keys[vx as int]))
            }
        } else {
            Err(Fault::UnsupportedInstruction)
        }
    } else if 0xF000 <= op {
        spec_exec_fx(s, op)
    } else {
        Err(Fault::UnsupportedInstruction)
    }
}

/// One whole step: fetch the big-endian word at the program counter (a
/// fault if it does not lie wholly below 4096), advance the counter by one
/// instruction width, then execute the word.
pub open spec fn spec_cycle(s: State, rnd: u8) -> Result<State, Fault> {
    if s.pc + 1 >= 4096 {
        Err(Fault::AddressOutOfRange)
    } else {
        let op = crate::memory::word_at(s.mem, s.pc as int);
        spec_exec(State { pc: (s.pc + 2) as u16, ..s }, op, rnd)
    }
}

/// What one executed step promises for one drawn random byte: on `Ok` the
/// machine moved exactly as `spec_cycle` says, on a fault it is unchanged.
pub open spec fn cycle_matches(pre: State, post: State, r: Result<(), Fault>, rnd: u8) -> bool {
    match spec_cycle(pre, rnd) {
        Ok(s2) => r is Ok && post == s2,
        Err(f) => r == Err::<(), Fault>(f) && post == pre,
    }
}

} // verus!
