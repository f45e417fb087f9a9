//! General laws of the machine, each proved once and for all inputs: what
//! the register file, the arithmetic flags, the call stack, the skip
//! opcodes, the jump and the sprite XOR guarantee.

use vstd::prelude::*;

use crate::display::flip;
use crate::display::hits;
use crate::display::row_bit;
use crate::display::spec_collision;
use crate::display::spec_draw;
use crate::display::wf_disp;
use crate::display::wrap_x;
use crate::display::wrap_y;
use crate::memory::word_at;
use crate::state::op_kk;
use crate::state::op_n;
use crate::state::op_nnn;
use crate::state::op_x;
use crate::state::op_y;
use crate::state::spec_cycle;
use crate::state::sub8;
use crate::state::wf_state;
use crate::state::State;

verus! {

/// Writing a register and reading it back yields the written value, for
/// every register index and every byte. Together with the contracts of
/// `Registers::set` and `Registers::get`, which speak of exactly this
/// update and this lookup, it covers the executable pair.
pub proof fn lemma_register_set_then_get(regs: Seq<u8>, r: int, v: u8)
    requires
        regs.len() == 16,
        0 <= r < 16,
    ensures
        regs.update(r, v)[r] == v,
{
}

/// `8xy4` adds with 8-bit wraparound and puts the carry in VF: the
/// destination becomes the sum modulo 256, and VF is 1 exactly when the
/// unsigned sum exceeds 255.
pub proof fn lemma_add_with_carry(s: State, op: u16, rnd: u8)
    requires
        wf_state(s),
        0x8000 <= op < 0x9000,
        op_n(op) == 4,
        op_x(op) != 15,
    ensures
        ({
            let x = op_x(op);
            let y = op_y(op);
            let vx = s.regs[x];
            let vy = s.regs[y];
            crate::state::spec_exec(s, op, rnd) matches Ok(s2) && s2.regs[x] == (vx + vy) % 256
                && s2.regs[15] == (if vx + vy > 255 {
                1u8
            } else {
                0u8
            })
        }),
{
}

/// `8xy5` subtracts with 8-bit wraparound and puts the no-borrow flag in
/// VF first: VF is 1 exactly when Vx exceeds Vy before the subtraction,
/// and the destination becomes Vx minus Vy modulo 256.
pub proof fn lemma_sub_with_borrow(s: State, op: u16, rnd: u8)
    requires
        wf_state(s),
        0x8000 <= op < 0x9000,
        op_n(op) == 5,
        op_x(op) != 15,
    ensures
        ({
            let x = op_x(op);
            let y = op_y(op);
            let vx = s.regs[x];
            let vy = s.regs[y];
            crate::state::spec_exec(s, op, rnd) matches Ok(s2) && s2.regs[x] == sub8(vx, vy)
                && s2.regs[15] == (if vx > vy {
                1u8
            } else {
                0u8
            })
        }),
{
}

/// `8xy6` shifts right by one with zero fill: the destination becomes half
/// the old value, and VF holds the bit shifted out.
pub proof fn lemma_shift_right(s: State, op: u16, rnd: u8)
    requires
        wf_state(s),
        0x8000 <= op < 0x9000,
        op_n(op) == 6,
        op_x(op) != 15,
    ensures
        ({
            let x = op_x(op);
            let vx = s.regs[x];
            crate::state::spec_exec(s, op, rnd) matches Ok(s2) && s2.regs[x] == vx / 2
                && s2.regs[15] == vx % 2
        }),
{
}

/// A call followed by a return comes back: executing `2nnn` at the program
/// counter and then `00EE` at `nnn` leaves the program counter at the
/// address following the call and the stack pointer at its old depth.
pub proof fn lemma_call_return_round_trip(s: State, rnd1: u8, rnd2: u8)
    requires
        wf_state(s),
        s.pc + 1 < 4096,
        ({
            let op = word_at(s.mem, s.pc as int);
            &&& 0x2000 <= op < 0x3000
            &&& op_nnn(op) + 1 < 4096
            &&& word_at(s.mem, op_nnn(op) as int) == 0x00EE
        }),
        s.sp < 16,
    ensures
        ({
            let r1 = spec_cycle(s, rnd1);
            r1 matches Ok(s1) && {
                let r2 = spec_cycle(s1, rnd2);
                r2 matches Ok(s2) && s2.pc == s.pc + 2 && s2.sp == s.sp
            }
        }),
{
}

/// Whether an instruction at the program counter is one of the six
/// conditional skips, with its key index in range where it reads the
/// keypad.
pub open spec fn is_skip_op(s: State, op: u16) -> bool {
    ||| 0x3000 <= op < 0x5000
    ||| (0x5000 <= op < 0x6000 && op_n(op) == 0)
    ||| (0x9000 <= op < 0xA000 && op_n(op) == 0)
    ||| (0xE000 <= op < 0xF000 && (op_kk(op) == 0x9E || op_kk(op) == 0xA1) && s.regs[op_x(op)]
        < 16)
}

/// The condition a skip instruction tests, read on the state before the
/// step.
pub open spec fn skip_condition(s: State, op: u16) -> bool {
    let vx = s.regs[op_x(op)];
    let vy = s.regs[op_y(op)];
    if 0x3000 <= op && op < 0x4000 {
        vx == op_kk(op)
    } else if 0x4000 <= op && op < 0x5000 {
        vx != op_kk(op)
    } else if 0x5000 <= op && op < 0x6000 {
        vx == vy
    } else if 0x9000 <= op && op < 0xA000 {
        vx != vy
    } else if 0xE000 <= op && op < 0xF000 && op_kk(op) == 0x9E {
        s.keys[vx as int]
    } else {
        !s.keys[vx as int]
    }
}

/// Every skip opcode moves the program counter by exactly two instruction
/// widths when its condition holds and by exactly one otherwise.
pub proof fn lemma_skip_width(s: State, rnd: u8)
    requires
        wf_state(s),
        s.pc + 1 < 4096,
        is_skip_op(s, word_at(s.mem, s.pc as int)),
    ensures
        ({
            let op = word_at(s.mem, s.pc as int);
            spec_cycle(s, rnd) matches Ok(s1) && s1.pc == (if skip_condition(s, op) {
                s.pc + 4
            } else {
                s.pc + 2
            })
        }),
{
}

/// A jump lands exactly: `1nnn` sets the program counter to `nnn` itself,
/// with no implicit advance added.
pub proof fn lemma_jump_exact(s: State, rnd: u8)
    requires
        wf_state(s),
        s.pc + 1 < 4096,
        0x1000 <= word_at(s.mem, s.pc as int) < 0x2000,
    ensures
        ({
            let op = word_at(s.mem, s.pc as int);
            spec_cycle(s, rnd) matches Ok(s1) && s1.pc == op_nnn(op)
        }),
{
}

/// The three bytes the BCD store writes are the decimal digits of the
/// value: each is at most 9 and they reassemble to it.
pub proof fn lemma_bcd_digits(v: u8)
    ensures
        v / 100 <= 9,
        (v % 100) / 10 <= 9,
        v % 10 <= 9,
        100 * (v / 100) + 10 * ((v % 100) / 10) + (v % 10) == v,
{
}

/// Whether any bit of the sprite's rows is set.
pub open spec fn sprite_nonzero(spr: Seq<u8>) -> bool {
    exists|row: int, col: int|
        0 <= row < spr.len() && 0 <= col < 8 && #[trigger] row_bit(spr[row], col) == 1
}

/// Drawing a sprite twice at the same position on a blank display first
/// lights its pixels without collision, then clears them again, reporting
/// a collision exactly when the sprite has any bit set.
pub proof fn lemma_draw_twice(disp: Seq<Seq<u8>>, x0: int, y0: int, spr: Seq<u8>)
    requires
        wf_disp(disp),
        0 <= x0 < 64,
        0 <= y0 < 32,
        spr.len() <= 15,
        forall|px: int, py: int| 0 <= px < 64 && 0 <= py < 32 ==> #[trigger] disp[px][py] == 0,
    ensures
        !spec_collision(disp, x0, y0, spr),
        spec_collision(spec_draw(disp, x0, y0, spr), x0, y0, spr) == sprite_nonzero(spr),
        spec_draw(spec_draw(disp, x0, y0, spr), x0, y0, spr) == disp,
{
    let d1 = spec_draw(disp, x0, y0, spr);
    assert(!spec_collision(disp, x0, y0, spr)) by {
        if spec_collision(disp, x0, y0, spr) {
            let (r, c) = choose|r: int, c: int|
                0 <= r < spr.len() && 0 <= c < 8 && #[trigger] row_bit(spr[r], c) == 1 && disp[
                    wrap_x(x0, c)
                ][wrap_y(y0, r)] == 1;
            assert(disp[wrap_x(x0, c)][wrap_y(y0, r)] == 0);
            assert(false);
        }
    }
    assert(spec_collision(d1, x0, y0, spr) == sprite_nonzero(spr)) by {
        if sprite_nonzero(spr) {
            let (r, c) = choose|r: int, c: int|
                0 <= r < spr.len() && 0 <= c < 8 && #[trigger] row_bit(spr[r], c) == 1;
            let px = wrap_x(x0, c);
            let py = wrap_y(y0, r);
            assert(hits(spr, x0, y0, px, py));
            assert(d1[px][py] == flip(disp[px][py]));
            assert(d1[px][py] == 1);
            assert(spec_collision(d1, x0, y0, spr));
        }
        if spec_collision(d1, x0, y0, spr) {
            let (r, c) = choose|r: int, c: int|
                0 <= r < spr.len() && 0 <= c < 8 && #[trigger] row_bit(spr[r], c) == 1 && d1[
                    wrap_x(x0, c)
                ][wrap_y(y0, r)] == 1;
            assert(sprite_nonzero(spr));
        }
    }
    let d2 = spec_draw(d1, x0, y0, spr);
    assert forall|px: int| 0 <= px < 64 implies d2[px] =~= disp[px] by {
        assert forall|py: int| 0 <= py < 32 implies d2[px][py] == disp[px][py] by {
            if hits(spr, x0, y0, px, py) {
                assert(d1[px][py] == flip(disp[px][py]));
                assert(d2[px][py] == flip(d1[px][py]));
            } else {
                assert(d1[px][py] == disp[px][py]);
                assert(d2[px][py] == d1[px][py]);
            }
        }
        assert(d2[px].len() == 32 && disp[px].len() == 32);
    }
    assert(d2 =~~= disp);
}

} // verus!
