//! Laws of the machine, proved from the transition function: the arithmetic
//! flags, the shift flags, the XOR-draw involution, the call/return round
//! trip, and the saturation of the countdown timers.

use vstd::prelude::*;

verus! {

use crate::DISPLAY_HEIGHT;
use crate::DISPLAY_SIZE;
use crate::DISPLAY_WIDTH;
use crate::MEM_SIZE;
use crate::REGISTER_COUNT;
use crate::STACK_SLOTS;
use crate::bits::lemma_shr1;
use crate::bits::lemma_shl1;
use crate::bits::lemma_xor_bit;
use crate::opcode::Instr;
use crate::opcode::decode;
use crate::semantics::VmView;
use crate::semantics::dec_timer;
use crate::semantics::draw_collision;
use crate::semantics::draw_display;
use crate::semantics::draw_rows;
use crate::semantics::exec_instr_spec;
use crate::semantics::fetch_opcode;
use crate::semantics::frame_spec;
use crate::semantics::lemma_addr;
use crate::semantics::lemma_addr_decompose;
use crate::semantics::lemma_sprite_bit_le1;
use crate::semantics::sprite_bit;
use crate::semantics::sprite_bit_at;
use crate::semantics::step_spec;
use crate::semantics::wf;

/// For every register pair, the add-with-carry instruction leaves register x
/// holding the sum modulo 256, and (when x is not the flag register itself,
/// which the sum then overwrites) the flag register holds 1 exactly when the
/// unsigned sum exceeds 255.
pub proof fn lemma_add_with_carry(pre: VmView, x: usize, y: usize, rb: u8)
    requires
        wf(pre),
        x < REGISTER_COUNT,
        y < REGISTER_COUNT,
    ensures
        ({
            let a = pre.registers[x as int];
            let b = pre.registers[y as int];
            exec_instr_spec(pre, (Instr::AddCarry { x, y }), rb) matches Ok(v) && {
                &&& v.registers[x as int] == (a + b) % 256
                &&& x != 15 ==> (v.registers[15] == 1 <==> a + b > 255)
            }
        }),
{
}

/// For every register pair, the subtract-with-borrow instruction (x - y)
/// leaves register x holding the difference modulo 256, and (when x is not
/// the flag register itself) the flag register holds 1 exactly when no
/// borrow occurred, that is when x was at least y.
pub proof fn lemma_subtract_with_borrow(pre: VmView, x: usize, y: usize, rb: u8)
    requires
        wf(pre),
        x < REGISTER_COUNT,
        y < REGISTER_COUNT,
    ensures
        ({
            let a = pre.registers[x as int];
            let b = pre.registers[y as int];
            exec_instr_spec(pre, (Instr::SubBorrow { x, y }), rb) matches Ok(v) && {
                &&& v.registers[x as int] == (a - b) % 256
                &&& x != 15 ==> (v.registers[15] == 1 <==> a >= b)
            }
        }),
{
}

/// The shift-right instruction sets the flag register to the pre-shift low
/// bit and halves register x (when x is not the flag register itself), and
/// its outcome does not depend on the random byte: the same input state
/// always yields the same result.
pub proof fn lemma_shift_right(pre: VmView, x: usize, rb: u8)
    requires
        wf(pre),
        x < REGISTER_COUNT,
        x != 15,
    ensures
        ({
            let a = pre.registers[x as int];
            exec_instr_spec(pre, (Instr::ShiftRight { x }), rb) matches Ok(v) && {
                &&& v.registers[15] == a % 2
                &&& v.registers[x as int] == a / 2
            }
        }),
        forall|rb2: u8| #[trigger]
            exec_instr_spec(pre, (Instr::ShiftRight { x }), rb2) == exec_instr_spec(
                pre,
                (Instr::ShiftRight { x }),
                rb,
            ),
{
    lemma_shr1(pre.registers[x as int]);
}

/// The shift-left instruction sets the flag register to the pre-shift high
/// bit and doubles register x modulo 256 (when x is not the flag register
/// itself), and its outcome does not depend on the random byte: the same
/// input state always yields the same result.
pub proof fn lemma_shift_left(pre: VmView, x: usize, rb: u8)
    requires
        wf(pre),
        x < REGISTER_COUNT,
        x != 15,
    ensures
        ({
            let a = pre.registers[x as int];
            exec_instr_spec(pre, (Instr::ShiftLeft { x }), rb) matches Ok(v) && {
                &&& v.registers[15] == a / 128
                &&& v.registers[x as int] == (2 * a) % 256
            }
        }),
        forall|rb2: u8| #[trigger]
            exec_instr_spec(pre, (Instr::ShiftLeft { x }), rb2) == exec_instr_spec(
                pre,
                (Instr::ShiftLeft { x }),
                rb,
            ),
{
    lemma_shl1(pre.registers[x as int]);
}

/// Sprite drawing is its own inverse: drawing the same sprite twice at the
/// same coordinates restores the prior pixel state exactly, and the
/// collision flag of the second draw is 1 exactly when the first draw set
/// some pixel that was previously unset. The coordinate registers must not
/// be the flag register, which the first draw overwrites.
pub proof fn lemma_draw_involution(pre: VmView, x: usize, y: usize, n: u8, rb: u8)
    requires
        wf(pre),
        x < REGISTER_COUNT,
        y < REGISTER_COUNT,
        x != 15,
        y != 15,
        exec_instr_spec(pre, (Instr::Draw { x, y, n }), rb) is Ok,
    ensures
        exec_instr_spec(pre, (Instr::Draw { x, y, n }), rb) matches Ok(v1) && exec_instr_spec(
            v1,
            (Instr::Draw { x, y, n }),
            rb,
        ) matches Ok(v2) && {
            &&& v2.display == pre.display
            &&& (v2.registers[15] == 1 <==> exists|a: int|
                0 <= a < DISPLAY_SIZE && pre.display[a] == 0 && #[trigger] v1.display[a] == 1)
        },
{
    let instr = Instr::Draw { x, y, n };
    let vx = pre.registers[x as int] as int;
    let vy = pre.registers[y as int] as int;
    let rows = draw_rows(vy, n as int);
    let d0 = pre.display;
    let mem = pre.memory;
    let i = pre.i;
    let v1 = match exec_instr_spec(pre, instr, rb) {
        Ok(v) => v,
        Err(_) => pre,
    };
    assert(v1.display == draw_display(d0, mem, i, vx, vy, rows));
    let d1 = v1.display;
    assert(v1.registers[x as int] == pre.registers[x as int]);
    assert(v1.registers[y as int] == pre.registers[y as int]);
    assert(exec_instr_spec(v1, instr, rb) is Ok);
    let v2 = match exec_instr_spec(v1, instr, rb) {
        Ok(v) => v,
        Err(_) => pre,
    };
    assert(v2.display == draw_display(d1, mem, i, vx, vy, rows));
    assert forall|a: int| 0 <= a < DISPLAY_SIZE implies v2.display[a] == d0[a] by {
        lemma_sprite_bit_le1(mem, i, vx, vy, rows, a);
        lemma_xor_bit(d0[a], sprite_bit(mem, i, vx, vy, rows, a));
    }
    assert(v2.display =~= d0);
    if draw_collision(d1, mem, i, vx, vy, rows) {
        let (px, py) = choose|px: int, py: int|
            0 <= px < DISPLAY_WIDTH && 0 <= py < DISPLAY_HEIGHT && d1[py * DISPLAY_WIDTH + px]
                == 1 && #[trigger] sprite_bit_at(mem, i, vx, vy, rows, px, py) == 1;
        lemma_addr(py, px);
        let a = py * DISPLAY_WIDTH + px;
        assert(sprite_bit(mem, i, vx, vy, rows, a) == 1);
        lemma_xor_bit(d0[a], 1);
        assert(d1[a] == 1 && d0[a] == 0);
        assert(0 <= a < DISPLAY_SIZE && pre.display[a] == 0 && d1[a] == 1);
    }
    if exists|a: int| 0 <= a < DISPLAY_SIZE && pre.display[a] == 0 && #[trigger] d1[a] == 1 {
        let a = choose|a: int|
            0 <= a < DISPLAY_SIZE && pre.display[a] == 0 && #[trigger] d1[a] == 1;
        lemma_addr_decompose(a);
        let px = a % (DISPLAY_WIDTH as int);
        let py = a / (DISPLAY_WIDTH as int);
        lemma_sprite_bit_le1(mem, i, vx, vy, rows, a);
        lemma_xor_bit(d0[a], sprite_bit(mem, i, vx, vy, rows, a));
        assert(sprite_bit_at(mem, i, vx, vy, rows, px, py) == 1);
        assert(d1[py * DISPLAY_WIDTH + px] == 1);
        assert(draw_collision(d1, mem, i, vx, vy, rows));
    }
}

/// A subroutine call followed immediately by a return brings the program
/// counter to the address just after the call instruction and restores the
/// call stack to its depth before the call, with registers and memory
/// untouched. The two steps may draw any random bytes; neither instruction
/// consumes one.
pub proof fn lemma_call_return_round_trip(pre: VmView, nnn: usize, rb1: u8, rb2: u8)
    requires
        wf(pre),
        pre.pc + 1 < MEM_SIZE,
        pre.sp < STACK_SLOTS - 1,
        nnn + 1 < MEM_SIZE,
        decode(fetch_opcode(pre.memory, pre.pc)) == (Instr::Call { nnn }),
        decode(fetch_opcode(pre.memory, nnn as int)) == Instr::Return,
    ensures
        step_spec(pre, rb1) matches Ok(v1) && step_spec(v1, rb2) matches Ok(v2) && {
            &&& v2.pc == pre.pc + 2
            &&& v2.stack == pre.stack
            &&& v2.sp == pre.sp
            &&& v2.registers == pre.registers
            &&& v2.memory == pre.memory
            &&& v2.display == pre.display
        },
{
    let v1 = match step_spec(pre, rb1) {
        Ok(v) => v,
        Err(_) => pre,
    };
    assert(v1.pc == nnn as int);
    assert(v1.stack == pre.stack.push((pre.pc + 2) as usize));
    let v2 = match step_spec(v1, rb2) {
        Ok(v) => v,
        Err(_) => pre,
    };
    assert(v2.stack =~= pre.stack);
    assert(v2.pc == pre.pc + 2);
}

/// Applying the saturating 60 Hz decrement `k` times to a timer that starts
/// at `t`.
pub open spec fn timer_after(t: u8, k: nat) -> u8
    decreases k,
{
    if k == 0 {
        t
    } else {
        dec_timer(timer_after(t, (k - 1) as nat))
    }
}

/// The countdown timers never underflow: after any number of 60 Hz ticks the
/// timer reads its starting value minus the tick count, and exactly 0 once
/// the ticks reach the starting value; it never wraps around.
pub proof fn lemma_timer_never_underflows(t: u8, k: nat)
    ensures
        timer_after(t, k) == (if k < t {
            (t - k) as u8
        } else {
            0u8
        }),
        k >= t ==> timer_after(t, k) == 0,
    decreases k,
{
    if k > 0 {
        lemma_timer_never_underflows(t, (k - 1) as nat);
    }
}

/// The frame tick applies exactly one saturating decrement to each timer:
/// what [`timer_after`] iterates.
pub proof fn lemma_frame_tick_timers(v: VmView, ticks: int)
    ensures
        frame_spec(v, ticks).delay_timer == timer_after(v.delay_timer, 1),
        frame_spec(v, ticks).sound_timer == timer_after(v.sound_timer, 1),
{
    assert(timer_after(v.delay_timer, 0) == v.delay_timer);
    assert(timer_after(v.sound_timer, 0) == v.sound_timer);
}

/// The random source influences nothing but the masked-random instruction:
/// for every other instruction word, one step of the machine is a function
/// of the machine state alone.
pub proof fn lemma_step_deterministic(pre: VmView, rb1: u8, rb2: u8)
    requires
        pre.pc + 1 < MEM_SIZE ==> !(decode(fetch_opcode(pre.memory, pre.pc)) is RandomMask),
    ensures
        step_spec(pre, rb1) == step_spec(pre, rb2),
{
    if pre.pc + 1 < MEM_SIZE {
        let op = fetch_opcode(pre.memory, pre.pc);
        let adv = VmView { pc: pre.pc + 2, ..pre };
        assert(exec_instr_spec(adv, decode(op), rb1) == exec_instr_spec(adv, decode(op), rb2));
    }
}

} // verus!
