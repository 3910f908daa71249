//! The virtual CPU: the machine state and the fetch-decode-execute cycle,
//! each opcode handler proved against the transition function in
//! [`crate::semantics`].

use vstd::prelude::*;

verus! {

use crate::KEY_COUNT;
use crate::MEM_SIZE;
use crate::STACK_SLOTS;
use crate::keyboard::KeyboardDevice;
use crate::opcode::ExecFault;
use crate::opcode::Instr;
use crate::semantics::VmView;
use crate::semantics::exec_instr_spec;
use crate::semantics::flag_val;
use crate::semantics::wf;
use crate::semantics::wrap_add8;
use crate::semantics::wrap_sub8;
use crate::video::VideoDevice;

/// The virtual machine: memory, register file, call stack, timers, display
/// buffer, key state, and the two scheduler deadlines.
pub struct Interpreter {
    video_device: VideoDevice,
    keyboard_device: KeyboardDevice,
    opcode_ticks: u128,
    memory: Vec<u8>,
    registers: Vec<u8>,
    stack: Vec<usize>,
    sp: usize,
    pc: usize,
    i: usize,
    delay_timer: u8,
    sound_timer: u8,
    next_opcode_time: u128,
    next_update_time: u128,
}

impl View for Interpreter {
    type V = VmView;

    closed spec fn view(&self) -> VmView {
        VmView {
            memory: self.memory@,
            registers: self.registers@,
            stack: self.stack@,
            sp: self.sp as int,
            pc: self.pc as int,
            i: self.i as int,
            delay_timer: self.delay_timer,
            sound_timer: self.sound_timer,
            display: self.video_device@.pixels,
            display_dirty: self.video_device@.dirty,
            keys: self.keyboard_device@,
            opcode_ticks: self.opcode_ticks as int,
            next_opcode_time: self.next_opcode_time as int,
            next_update_time: self.next_update_time as int,
        }
    }
}

/// Relies on rand::random: one byte drawn from rand's thread-local uniform
/// generator. Nothing is promised of the value; every caller must be correct
/// for every byte that may come back.
#[verifier::external_body]
fn random_byte() -> u8 {
    rand::random()
}

impl Interpreter {
    /// Advance the program counter to the next instruction (instructions are
    /// two bytes long).
    fn inc_pc(&mut self)
        requires
            wf(old(self)@),
            old(self)@.pc + 2 <= 0xFFFF,
        ensures
            final(self)@ == (VmView { pc: old(self)@.pc + 2, ..old(self)@ }),
            wf(final(self)@),
    {
        self.pc = self.pc + 2;
    }

    /// Move the program counter back to the previous instruction.
    fn dec_pc(&mut self)
        requires
            wf(old(self)@),
            old(self)@.pc >= 2,
        ensures
            final(self)@ == (VmView { pc: old(self)@.pc - 2, ..old(self)@ }),
            wf(final(self)@),
    {
        self.pc = self.pc - 2;
    }

    /// Skip the next instruction when the condition holds.
    fn cond_inc_pc(&mut self, val: bool)
        requires
            wf(old(self)@),
            old(self)@.pc + 2 <= 0xFFFF,
        ensures
            final(self)@ == (VmView {
                pc: if val {
                    old(self)@.pc + 2
                } else {
                    old(self)@.pc
                },
                ..old(self)@
            }),
            wf(final(self)@),
    {
        if val {
            self.inc_pc();
        }
    }

    /// Write 1 to the flag register when the condition holds, else 0.
    fn set_carry(&mut self, val: bool)
        requires
            wf(old(self)@),
        ensures
            final(self)@ == (VmView {
                registers: old(self)@.registers.update(15, flag_val(val)),
                ..old(self)@
            }),
            wf(final(self)@),
    {
        if val {
            self.registers[15] = 1;
        } else {
            self.registers[15] = 0;
        }
    }

    /// Push a return address; the caller has checked for room.
    fn push_stack(&mut self, addr: usize)
        requires
            wf(old(self)@),
            old(self)@.sp < STACK_SLOTS - 1,
            addr <= 0xFFFF,
        ensures
            final(self)@ == (VmView {
                stack: old(self)@.stack.push(addr),
                sp: old(self)@.sp + 1,
                ..old(self)@
            }),
            wf(final(self)@),
    {
        self.stack.push(addr);
        self.sp = self.sp + 1;
    }

    /// Pop the most recent return address; the caller has checked the stack
    /// is non-empty.
    fn pop_stack(&mut self) -> (addr: usize)
        requires
            wf(old(self)@),
            old(self)@.sp > 0,
        ensures
            final(self)@ == (VmView {
                stack: old(self)@.stack.drop_last(),
                sp: old(self)@.sp - 1,
                ..old(self)@
            }),
            addr == old(self)@.stack.last(),
            addr <= 0xFFFF,
            wf(final(self)@),
    {
        let addr_opt = self.stack.pop();
        self.sp = self.sp - 1;
        match addr_opt {
            Some(addr) => addr,
            None => 0,
        }
    }

    /// Decrement the delay timer, saturating at zero.
    fn dec_delay_timer(&mut self)
        ensures
            final(self)@ == (VmView {
                delay_timer: crate::semantics::dec_timer(old(self)@.delay_timer),
                ..old(self)@
            }),
    {
        if self.delay_timer != 0 {
            self.delay_timer = self.delay_timer - 1;
        }
    }

    /// Decrement the sound timer, saturating at zero.
    fn dec_sound_timer(&mut self)
        ensures
            final(self)@ == (VmView {
                sound_timer: crate::semantics::dec_timer(old(self)@.sound_timer),
                ..old(self)@
            }),
    {
        if self.sound_timer != 0 {
            self.sound_timer = self.sound_timer - 1;
        }
    }

    /// Add `rhs` to `lhs`, setting the flag register to 1 exactly when the
    /// unsigned sum overflows eight bits.
    fn add_with_carry(&mut self, lhs: u8, rhs: u8) -> (r: u8)
        requires
            wf(old(self)@),
        ensures
            final(self)@ == (VmView {
                registers: old(self)@.registers.update(15, flag_val(lhs + rhs > 255)),
                ..old(self)@
            }),
            r == wrap_add8(lhs, rhs),
            wf(final(self)@),
    {
        self.set_carry(255 - lhs < rhs);
        lhs.wrapping_add(rhs)
    }

    /// Subtract `rhs` from `lhs`, setting the flag register to 1 exactly
    /// when no borrow occurs (`lhs >= rhs`).
    fn subtract_with_borrow(&mut self, lhs: u8, rhs: u8) -> (r: u8)
        requires
            wf(old(self)@),
        ensures
            final(self)@ == (VmView {
                registers: old(self)@.registers.update(15, flag_val(lhs >= rhs)),
                ..old(self)@
            }),
            r == wrap_sub8(lhs, rhs),
            wf(final(self)@),
    {
        self.set_carry(lhs >= rhs);
        lhs.wrapping_sub(rhs)
    }
}

} // verus!

verus! {

use crate::semantics::instr_obeys;

impl Interpreter {
    /// Call machine code routine at nnn (opcode 0NNN): a documented,
    /// permanent limitation; always faults.
    fn call_machine_code_routine(&mut self, addr: usize) -> (r: Result<(), ExecFault>)
        requires
            wf(old(self)@),
            old(self)@.pc >= 2,
            addr < 4096,
        ensures
            forall|rb: u8|
                instr_obeys(old(self)@, final(self)@, r, (Instr::NativeCall { nnn: addr }), rb),
            wf(final(self)@),
    {
        Err(ExecFault::NotImplemented { addr, pc: self.pc - 2 })
    }

    /// Clear the screen (opcode 00E0).
    fn disp_clear(&mut self)
        requires
            wf(old(self)@),
        ensures
            forall|rb: u8|
                (#[trigger] exec_instr_spec(old(self)@, Instr::ClearScreen, rb)) == Ok::<
                    VmView,
                    ExecFault,
                >(final(self)@),
            wf(final(self)@),
    {
        self.video_device.clear();
    }

    /// Return from a subroutine (opcode 00EE); a no-op when the stack is
    /// empty.
    fn flow_return(&mut self)
        requires
            wf(old(self)@),
        ensures
            forall|rb: u8|
                (#[trigger] exec_instr_spec(old(self)@, Instr::Return, rb)) == Ok::<
                    VmView,
                    ExecFault,
                >(final(self)@),
            wf(final(self)@),
    {
        if self.sp > 0 {
            let addr = self.pop_stack();
            self.pc = addr;
        }
    }

    /// Jump to nnn (opcode 1NNN).
    fn flow_goto(&mut self, addr: usize)
        requires
            wf(old(self)@),
            addr < 4096,
        ensures
            forall|rb: u8|
                (#[trigger] exec_instr_spec(old(self)@, (Instr::Jump { nnn: addr }), rb)) == Ok::<
                    VmView,
                    ExecFault,
                >(final(self)@),
            wf(final(self)@),
    {
        self.pc = addr;
    }

    /// Call the subroutine at nnn (opcode 2NNN); faults when the call stack
    /// is full.
    fn flow_call_subroutine(&mut self, addr: usize) -> (r: Result<(), ExecFault>)
        requires
            wf(old(self)@),
            old(self)@.pc >= 2,
            addr < 4096,
        ensures
            forall|rb: u8|
                instr_obeys(old(self)@, final(self)@, r, (Instr::Call { nnn: addr }), rb),
            wf(final(self)@),
    {
        if self.sp == STACK_SLOTS - 1 {
            return Err(ExecFault::StackOverflow { pc: self.pc - 2 });
        }
        self.push_stack(self.pc);
        self.pc = addr;
        Ok(())
    }

    /// Skip the next instruction if register x equals nn (opcode 3XNN).
    fn cond_if_vx_nn_eq_skip(&mut self, vxindex: usize, val: u8)
        requires
            wf(old(self)@),
            vxindex < 16,
            old(self)@.pc + 2 <= 0xFFFF,
        ensures
            forall|rb: u8|
                (#[trigger] exec_instr_spec(
                    old(self)@,
                    (Instr::SkipEqImm { x: vxindex, nn: val }),
                    rb,
                )) == Ok::<VmView, ExecFault>(final(self)@),
            wf(final(self)@),
    {
        let vx = self.registers[vxindex];
        self.cond_inc_pc(vx == val);
    }

    /// Skip the next instruction if register x differs from nn (opcode
    /// 4XNN).
    fn cond_if_vx_nn_neq_skip(&mut self, vxindex: usize, val: u8)
        requires
            wf(old(self)@),
            vxindex < 16,
            old(self)@.pc + 2 <= 0xFFFF,
        ensures
            forall|rb: u8|
                (#[trigger] exec_instr_spec(
                    old(self)@,
                    (Instr::SkipNeImm { x: vxindex, nn: val }),
                    rb,
                )) == Ok::<VmView, ExecFault>(final(self)@),
            wf(final(self)@),
    {
        let vx = self.registers[vxindex];
        self.cond_inc_pc(vx != val);
    }

    /// Skip the next instruction if registers x and y are equal (opcode
    /// 5XY0).
    fn cond_if_vx_vy_eq_skip(&mut self, vxindex: usize, vyindex: usize)
        requires
            wf(old(self)@),
            vxindex < 16,
            vyindex < 16,
            old(self)@.pc + 2 <= 0xFFFF,
        ensures
            forall|rb: u8|
                (#[trigger] exec_instr_spec(
                    old(self)@,
                    (Instr::SkipEqReg { x: vxindex, y: vyindex }),
                    rb,
                )) == Ok::<VmView, ExecFault>(final(self)@),
            wf(final(self)@),
    {
        let vx = self.registers[vxindex];
        let vy = self.registers[vyindex];
        self.cond_inc_pc(vx == vy);
    }

    /// Register x := nn (opcode 6XNN).
    fn const_set_vx_nn(&mut self, vxindex: usize, val: u8)
        requires
            wf(old(self)@),
            vxindex < 16,
        ensures
            forall|rb: u8|
                (#[trigger] exec_instr_spec(
                    old(self)@,
                    (Instr::LoadImm { x: vxindex, nn: val }),
                    rb,
                )) == Ok::<VmView, ExecFault>(final(self)@),
            wf(final(self)@),
    {
        self.registers[vxindex] = val;
    }

    /// Register x := register x + nn, wrapping, flag untouched (opcode
    /// 7XNN).
    fn const_set_add_vx_nn(&mut self, vxindex: usize, val: u8)
        requires
            wf(old(self)@),
            vxindex < 16,
        ensures
            forall|rb: u8|
                (#[trigger] exec_instr_spec(
                    old(self)@,
                    (Instr::AddImm { x: vxindex, nn: val }),
                    rb,
                )) == Ok::<VmView, ExecFault>(final(self)@),
            wf(final(self)@),
    {
        let vx = self.registers[vxindex];
        self.registers[vxindex] = vx.wrapping_add(val);
    }

    /// Register x := register y (opcode 8XY0).
    fn assig_vx_to_vy(&mut self, vxindex: usize, vyindex: usize)
        requires
            wf(old(self)@),
            vxindex < 16,
            vyindex < 16,
        ensures
            forall|rb: u8|
                (#[trigger] exec_instr_spec(
                    old(self)@,
                    (Instr::Move { x: vxindex, y: vyindex }),
                    rb,
                )) == Ok::<VmView, ExecFault>(final(self)@),
            wf(final(self)@),
    {
        let vy = self.registers[vyindex];
        self.registers[vxindex] = vy;
    }

    /// Register x := register x | register y (opcode 8XY1).
    fn bitop_vx_oreq_vy(&mut self, vxindex: usize, vyindex: usize)
        requires
            wf(old(self)@),
            vxindex < 16,
            vyindex < 16,
        ensures
            forall|rb: u8|
                (#[trigger] exec_instr_spec(
                    old(self)@,
                    (Instr::Or { x: vxindex, y: vyindex }),
                    rb,
                )) == Ok::<VmView, ExecFault>(final(self)@),
            wf(final(self)@),
    {
        let vx = self.registers[vxindex];
        let vy = self.registers[vyindex];
        self.registers[vxindex] = vx | vy;
    }

    /// Register x := register x & register y (opcode 8XY2).
    fn bitop_vx_andeq_vy(&mut self, vxindex: usize, vyindex: usize)
        requires
            wf(old(self)@),
            vxindex < 16,
            vyindex < 16,
        ensures
            forall|rb: u8|
                (#[trigger] exec_instr_spec(
                    old(self)@,
                    (Instr::And { x: vxindex, y: vyindex }),
                    rb,
                )) == Ok::<VmView, ExecFault>(final(self)@),
            wf(final(self)@),
    {
        let vx = self.registers[vxindex];
        let vy = self.registers[vyindex];
        self.registers[vxindex] = vx & vy;
    }

    /// Register x := register x ^ register y (opcode 8XY3).
    fn bitop_vx_xoreq_vy(&mut self, vxindex: usize, vyindex: usize)
        requires
            wf(old(self)@),
            vxindex < 16,
            vyindex < 16,
        ensures
            forall|rb: u8|
                (#[trigger] exec_instr_spec(
                    old(self)@,
                    (Instr::Xor { x: vxindex, y: vyindex }),
                    rb,
                )) == Ok::<VmView, ExecFault>(final(self)@),
            wf(final(self)@),
    {
        let vx = self.registers[vxindex];
        let vy = self.registers[vyindex];
        self.registers[vxindex] = vx ^ vy;
    }

    /// Register x := register x + register y with carry flag (opcode 8XY4).
    fn math_vx_pleq_vy(&mut self, vxindex: usize, vyindex: usize)
        requires
            wf(old(self)@),
            vxindex < 16,
            vyindex < 16,
        ensures
            forall|rb: u8|
                (#[trigger] exec_instr_spec(
                    old(self)@,
                    (Instr::AddCarry { x: vxindex, y: vyindex }),
                    rb,
                )) == Ok::<VmView, ExecFault>(final(self)@),
            wf(final(self)@),
    {
        let vx = self.registers[vxindex];
        let vy = self.registers[vyindex];
        let sum = self.add_with_carry(vx, vy);
        self.registers[vxindex] = sum;
    }

    /// Register x := register x - register y with borrow flag (opcode 8XY5).
    fn math_vx_mieq_vy(&mut self, vxindex: usize, vyindex: usize)
        requires
            wf(old(self)@),
            vxindex < 16,
            vyindex < 16,
        ensures
            forall|rb: u8|
                (#[trigger] exec_instr_spec(
                    old(self)@,
                    (Instr::SubBorrow { x: vxindex, y: vyindex }),
                    rb,
                )) == Ok::<VmView, ExecFault>(final(self)@),
            wf(final(self)@),
    {
        let vx = self.registers[vxindex];
        let vy = self.registers[vyindex];
        let diff = self.subtract_with_borrow(vx, vy);
        self.registers[vxindex] = diff;
    }

    /// Flag := low bit of register x, then register x := register x >> 1
    /// (opcode 8XY6).
    fn bitop_vx_rsh(&mut self, vxindex: usize)
        requires
            wf(old(self)@),
            vxindex < 16,
        ensures
            forall|rb: u8|
                (#[trigger] exec_instr_spec(old(self)@, (Instr::ShiftRight { x: vxindex }), rb))
                    == Ok::<VmView, ExecFault>(final(self)@),
            wf(final(self)@),
    {
        let vx = self.registers[vxindex];
        self.registers[15] = vx & 1;
        let v2 = self.registers[vxindex];
        proof {
            crate::bits::lemma_shr1(v2);
        }
        self.registers[vxindex] = v2 >> 1;
    }

    /// Register x := register y - register x with borrow flag (opcode 8XY7).
    fn math_vx_eq_vy_mi_vx(&mut self, vxindex: usize, vyindex: usize)
        requires
            wf(old(self)@),
            vxindex < 16,
            vyindex < 16,
        ensures
            forall|rb: u8|
                (#[trigger] exec_instr_spec(
                    old(self)@,
                    (Instr::SubBorrowRev { x: vxindex, y: vyindex }),
                    rb,
                )) == Ok::<VmView, ExecFault>(final(self)@),
            wf(final(self)@),
    {
        let vx = self.registers[vxindex];
        let vy = self.registers[vyindex];
        let diff = self.subtract_with_borrow(vy, vx);
        self.registers[vxindex] = diff;
    }

    /// Flag := high bit of register x, then register x := register x << 1,
    /// wrapping (opcode 8XYE).
    fn bitop_vx_lsh(&mut self, vxindex: usize)
        requires
            wf(old(self)@),
            vxindex < 16,
        ensures
            forall|rb: u8|
                (#[trigger] exec_instr_spec(old(self)@, (Instr::ShiftLeft { x: vxindex }), rb))
                    == Ok::<VmView, ExecFault>(final(self)@),
            wf(final(self)@),
    {
        let vx = self.registers[vxindex];
        proof {
            crate::bits::lemma_shl1(vx);
        }
        self.registers[15] = (vx >> 7) & 1;
        let v2 = self.registers[vxindex];
        self.registers[vxindex] = v2.wrapping_add(v2);
    }

    /// Skip the next instruction if registers x and y differ (opcode 9XY0).
    fn cond_if_vx_vy_neq_skip(&mut self, vxindex: usize, vyindex: usize)
        requires
            wf(old(self)@),
            vxindex < 16,
            vyindex < 16,
            old(self)@.pc + 2 <= 0xFFFF,
        ensures
            forall|rb: u8|
                (#[trigger] exec_instr_spec(
                    old(self)@,
                    (Instr::SkipNeReg { x: vxindex, y: vyindex }),
                    rb,
                )) == Ok::<VmView, ExecFault>(final(self)@),
            wf(final(self)@),
    {
        let vx = self.registers[vxindex];
        let vy = self.registers[vyindex];
        self.cond_inc_pc(vx != vy);
    }

    /// Address register I := nnn (opcode ANNN).
    fn mem_set_i(&mut self, addr: usize)
        requires
            wf(old(self)@),
            addr < 4096,
        ensures
            forall|rb: u8|
                (#[trigger] exec_instr_spec(old(self)@, (Instr::SetIndex { nnn: addr }), rb))
                    == Ok::<VmView, ExecFault>(final(self)@),
            wf(final(self)@),
    {
        self.i = addr;
    }

    /// Jump to register 0 + nnn (opcode BNNN).
    fn flow_jump_v0_pl(&mut self, addr: usize)
        requires
            wf(old(self)@),
            addr < 4096,
        ensures
            forall|rb: u8|
                (#[trigger] exec_instr_spec(old(self)@, (Instr::JumpV0 { nnn: addr }), rb)) == Ok::<
                    VmView,
                    ExecFault,
                >(final(self)@),
            wf(final(self)@),
    {
        let v0 = self.registers[0];
        self.pc = (v0 as usize) + addr;
    }

    /// Register x := random byte & nn (opcode CXNN). The random byte is
    /// passed in by the dispatcher.
    fn rand_vx_rand_and_nn(&mut self, vxindex: usize, val: u8, rand_byte: u8)
        requires
            wf(old(self)@),
            vxindex < 16,
        ensures
            exec_instr_spec(old(self)@, (Instr::RandomMask { x: vxindex, nn: val }), rand_byte)
                == Ok::<VmView, ExecFault>(final(self)@),
            wf(final(self)@),
    {
        self.registers[vxindex] = rand_byte & val;
    }

    /// Skip the next instruction if the key in register x is down (opcode
    /// EX9E); every key register is cleared afterwards.
    fn keyop_if_vx_pressed_skip(&mut self, vxindex: usize) -> (r: Result<(), ExecFault>)
        requires
            wf(old(self)@),
            vxindex < 16,
            old(self)@.pc >= 2,
            old(self)@.pc + 2 <= 0xFFFF,
        ensures
            forall|rb: u8|
                instr_obeys(old(self)@, final(self)@, r, (Instr::SkipKey { x: vxindex }), rb),
            wf(final(self)@),
    {
        let vx = self.registers[vxindex];
        if vx as usize >= KEY_COUNT {
            return Err(ExecFault::KeyOutOfRange { key: vx, pc: self.pc - 2 });
        }
        let pressed = self.keyboard_device.is_key_pressed(vx);
        if pressed {
            self.inc_pc();
        }
        self.keyboard_device.clear_keys();
        Ok(())
    }

    /// Skip the next instruction if the key in register x is up (opcode
    /// EXA1); every key register is cleared afterwards.
    fn keyop_if_vx_not_pressed_skip(&mut self, vxindex: usize) -> (r: Result<(), ExecFault>)
        requires
            wf(old(self)@),
            vxindex < 16,
            old(self)@.pc >= 2,
            old(self)@.pc + 2 <= 0xFFFF,
        ensures
            forall|rb: u8|
                instr_obeys(old(self)@, final(self)@, r, (Instr::SkipNoKey { x: vxindex }), rb),
            wf(final(self)@),
    {
        let vx = self.registers[vxindex];
        if vx as usize >= KEY_COUNT {
            return Err(ExecFault::KeyOutOfRange { key: vx, pc: self.pc - 2 });
        }
        let pressed = self.keyboard_device.is_key_pressed(vx);
        if !pressed {
            self.inc_pc();
        }
        self.keyboard_device.clear_keys();
        Ok(())
    }

    /// Register x := delay timer (opcode FX07).
    fn timer_set_vx_delay(&mut self, vxindex: usize)
        requires
            wf(old(self)@),
            vxindex < 16,
        ensures
            forall|rb: u8|
                (#[trigger] exec_instr_spec(old(self)@, (Instr::ReadDelay { x: vxindex }), rb))
                    == Ok::<VmView, ExecFault>(final(self)@),
            wf(final(self)@),
    {
        let d = self.delay_timer;
        self.registers[vxindex] = d;
    }

    /// Block for a key press (opcode FX0A): when a key is down, register x
    /// receives its index and the key registers clear; otherwise the program
    /// counter steps back so the instruction re-executes.
    fn keyop_vx_set_key(&mut self, vxindex: usize)
        requires
            wf(old(self)@),
            vxindex < 16,
            old(self)@.pc >= 2,
        ensures
            forall|rb: u8|
                (#[trigger] exec_instr_spec(old(self)@, (Instr::WaitKey { x: vxindex }), rb))
                    == Ok::<VmView, ExecFault>(final(self)@),
            wf(final(self)@),
    {
        let key_opt = self.keyboard_device.get_key_press();
        match key_opt {
            Some(key) => {
                self.registers[vxindex] = key;
                self.keyboard_device.clear_keys();
            },
            None => {
                self.dec_pc();
            },
        }
    }

    /// Delay timer := register x (opcode FX15).
    fn timer_set_delay_vx(&mut self, vxindex: usize)
        requires
            wf(old(self)@),
            vxindex < 16,
        ensures
            forall|rb: u8|
                (#[trigger] exec_instr_spec(old(self)@, (Instr::SetDelay { x: vxindex }), rb))
                    == Ok::<VmView, ExecFault>(final(self)@),
            wf(final(self)@),
    {
        let vx = self.registers[vxindex];
        self.delay_timer = vx;
    }

    /// Sound timer := register x (opcode FX18).
    fn sound_set_timer_vx(&mut self, vxindex: usize)
        requires
            wf(old(self)@),
            vxindex < 16,
        ensures
            forall|rb: u8|
                (#[trigger] exec_instr_spec(old(self)@, (Instr::SetSound { x: vxindex }), rb))
                    == Ok::<VmView, ExecFault>(final(self)@),
            wf(final(self)@),
    {
        let vx = self.registers[vxindex];
        self.sound_timer = vx;
    }

    /// I := I + register x, wrapping at 16 bits, flag untouched (opcode
    /// FX1E).
    fn mem_i_pleq_vx(&mut self, vxindex: usize)
        requires
            wf(old(self)@),
            vxindex < 16,
        ensures
            forall|rb: u8|
                (#[trigger] exec_instr_spec(old(self)@, (Instr::AddIndex { x: vxindex }), rb))
                    == Ok::<VmView, ExecFault>(final(self)@),
            wf(final(self)@),
    {
        let vx = self.registers[vxindex];
        self.i = (self.i + vx as usize) % 0x10000;
    }

    /// I := address of the font glyph for the digit in register x (opcode
    /// FX29).
    fn mem_set_i_sprite_addr_vx(&mut self, vxindex: usize)
        requires
            wf(old(self)@),
            vxindex < 16,
        ensures
            forall|rb: u8|
                (#[trigger] exec_instr_spec(old(self)@, (Instr::FontAddr { x: vxindex }), rb))
                    == Ok::<VmView, ExecFault>(final(self)@),
            wf(final(self)@),
    {
        let vx = self.registers[vxindex];
        self.i = crate::FONT_CHAR_SIZE * (vx as usize);
    }

    /// Write the decimal digits of register x at I, I+1, I+2 (opcode FX33);
    /// faults when those addresses leave memory.
    fn bcd_set_i_vx(&mut self, vxindex: usize) -> (r: Result<(), ExecFault>)
        requires
            wf(old(self)@),
            vxindex < 16,
            old(self)@.pc >= 2,
        ensures
            forall|rb: u8|
                instr_obeys(old(self)@, final(self)@, r, (Instr::StoreBcd { x: vxindex }), rb),
            wf(final(self)@),
    {
        if self.i + 2 >= MEM_SIZE {
            return Err(ExecFault::MemoryOutOfRange { addr: self.i + 2, pc: self.pc - 2 });
        }
        let vx = self.registers[vxindex];
        self.memory[self.i] = vx / 100;
        self.memory[self.i + 1] = (vx / 10) % 10;
        self.memory[self.i + 2] = vx % 10;
        Ok(())
    }
}

} // verus!

verus! {

use crate::DISPLAY_HEIGHT;
use crate::DISPLAY_SIZE;
use crate::DISPLAY_WIDTH;
use crate::REGISTER_COUNT;
use crate::bits::lemma_xor_bit;
use crate::semantics::draw_any_bit;
use crate::semantics::draw_collision;
use crate::semantics::draw_display;
use crate::semantics::draw_rows;
use crate::semantics::lemma_addr;
use crate::semantics::lemma_addr_decompose;
use crate::semantics::lemma_row_collision_same;
use crate::semantics::lemma_row_upto_done;
use crate::semantics::lemma_row_upto_step;
use crate::semantics::lemma_row_upto_zero;
use crate::semantics::lemma_sprite_step;
use crate::semantics::lemma_sprite_zero;
use crate::semantics::row_any;
use crate::semantics::row_any_upto;
use crate::semantics::row_bit;
use crate::semantics::row_bit_upto;
use crate::semantics::row_collision;
use crate::semantics::row_collision_upto;
use crate::semantics::sprite_bit;
use crate::semantics::sprite_bit_at;

impl Interpreter {
    /// XOR the low bit of `val` into the pixel at (x, y); report a collision
    /// when a set pixel meets a set bit.
    fn xor_display_pixel(&mut self, x: u8, y: u8, val: u8) -> (collision: bool)
        requires
            wf(old(self)@),
            x < DISPLAY_WIDTH,
            y < DISPLAY_HEIGHT,
        ensures
            ({
                let addr = x + y * DISPLAY_WIDTH;
                &&& final(self)@ == (VmView {
                    display: old(self)@.display.update(
                        addr,
                        old(self)@.display[addr] ^ (val & 1),
                    ),
                    display_dirty: old(self)@.display_dirty || val & 1 == 1,
                    ..old(self)@
                })
                &&& collision == (val & 1 == 1 && old(self)@.display[addr] == 1)
                &&& wf(final(self)@)
            }),
    {
        let pixel_bit_cur = self.video_device.get_pixel(x, y);
        self.video_device.set_pixel(x, y, val);
        let bit = val & 1;
        bit == 1 && pixel_bit_cur == 1
    }

    /// XOR one sprite row byte into display row `y`, with its leftmost bit
    /// at column `x`; columns beyond the right edge are clipped. Reports
    /// whether any pixel of the row went from set to unset.
    fn xor_display_row(&mut self, x: u8, y: u8, row_val: u8) -> (collision: bool)
        requires
            wf(old(self)@),
            y < DISPLAY_HEIGHT,
        ensures
            final(self)@ == (VmView {
                display: Seq::new(
                    DISPLAY_SIZE as nat,
                    |a: int|
                        if a / (DISPLAY_WIDTH as int) == y {
                            old(self)@.display[a] ^ row_bit(
                                row_val,
                                x as int,
                                a % (DISPLAY_WIDTH as int),
                            )
                        } else {
                            old(self)@.display[a]
                        },
                ),
                display_dirty: old(self)@.display_dirty || row_any(row_val, x as int),
                ..old(self)@
            }),
            collision == row_collision(old(self)@.display, row_val, x as int, y as int),
            wf(final(self)@),
    {
        let ghost disp0 = self@.display;
        let ghost dirty0 = self@.display_dirty;
        let ghost pre_view = self@;
        let mut collision = false;
        let mut b: u8 = 0;
        proof {
            lemma_row_upto_zero(disp0, row_val, x as int, y as int);
            assert forall|a: int| 0 <= a < DISPLAY_SIZE implies disp0[a] == disp0[a]
                ^ row_bit_upto(row_val, x as int, 0, a % (DISPLAY_WIDTH as int)) by {
                lemma_addr_decompose(a);
                lemma_xor_bit(disp0[a], 0);
            }
        }
        while b < 8
            invariant
                wf(self@),
                wf(pre_view),
                0 <= b <= 8,
                y < DISPLAY_HEIGHT,
                disp0 == pre_view.display,
                dirty0 == pre_view.display_dirty,
                self@ == (VmView {
                    display: self@.display,
                    display_dirty: self@.display_dirty,
                    ..pre_view
                }),
                self@.display.len() == DISPLAY_SIZE,
                forall|a: int|
                    0 <= a < DISPLAY_SIZE ==> self@.display[a] == (if a / (DISPLAY_WIDTH as int)
                        == y {
                        disp0[a] ^ row_bit_upto(row_val, x as int, b as int, a % (
                        DISPLAY_WIDTH as int))
                    } else {
                        disp0[a]
                    }),
                collision == row_collision_upto(disp0, row_val, x as int, b as int, y as int),
                self@.display_dirty == (dirty0 || row_any_upto(row_val, x as int, b as int)),
            decreases 8 - b,
        {
            proof {
                lemma_row_upto_step(disp0, row_val, x as int, b as int, y as int);
            }
            let ghost mid = self@.display;
            let px_wide = x as usize + b as usize;
            if px_wide < DISPLAY_WIDTH {
                let bit_val = row_val >> (7 - b);
                proof {
                    lemma_addr(y as int, px_wide as int);
                    assert(bit_val & 1 == row_bit(row_val, x as int, px_wide as int));
                    assert(mid[y * DISPLAY_WIDTH + px_wide] == disp0[y * DISPLAY_WIDTH + px_wide]
                        ^ row_bit_upto(row_val, x as int, b as int, px_wide as int));
                    assert(row_bit_upto(row_val, x as int, b as int, px_wide as int) == 0);
                    lemma_xor_bit(disp0[y * DISPLAY_WIDTH + px_wide], 0);
                    assert(mid[y * DISPLAY_WIDTH + px_wide] == disp0[y * DISPLAY_WIDTH + px_wide]);
                }
                let col = self.xor_display_pixel(px_wide as u8, y, bit_val);
                if col {
                    collision = true;
                }
                proof {
                    assert forall|a: int| 0 <= a < DISPLAY_SIZE implies self@.display[a] == (if a
                        / (DISPLAY_WIDTH as int) == y {
                        disp0[a] ^ row_bit_upto(row_val, x as int, b + 1, a % (
                        DISPLAY_WIDTH as int))
                    } else {
                        disp0[a]
                    }) by {
                        lemma_addr_decompose(a);
                        if a == y * DISPLAY_WIDTH + px_wide {
                            lemma_addr(y as int, px_wide as int);
                        }
                    }
                }
            } else {
                proof {
                    assert forall|a: int| 0 <= a < DISPLAY_SIZE implies self@.display[a] == (if a
                        / (DISPLAY_WIDTH as int) == y {
                        disp0[a] ^ row_bit_upto(row_val, x as int, b + 1, a % (
                        DISPLAY_WIDTH as int))
                    } else {
                        disp0[a]
                    }) by {
                        lemma_addr_decompose(a);
                    }
                }
            }
            b = b + 1;
        }
        proof {
            lemma_row_upto_done(disp0, row_val, x as int, y as int);
            assert(self@.display =~= Seq::new(
                DISPLAY_SIZE as nat,
                |a: int|
                    if a / (DISPLAY_WIDTH as int) == y {
                        disp0[a] ^ row_bit(row_val, x as int, a % (DISPLAY_WIDTH as int))
                    } else {
                        disp0[a]
                    },
            ));
        }
        collision
    }

    /// Draw the sprite of `height` rows at memory address I at the
    /// coordinates in registers x and y (opcode DXYN); rows and columns past
    /// the display edges are clipped, and the flag register reports whether
    /// any pixel was unset by the XOR. Faults when a drawn row would be read
    /// past the end of memory.
    fn display_draw(&mut self, vxindex: usize, vyindex: usize, height: u8) -> (r: Result<
        (),
        ExecFault,
    >)
        requires
            wf(old(self)@),
            vxindex < 16,
            vyindex < 16,
            old(self)@.pc >= 2,
        ensures
            forall|rb: u8|
                instr_obeys(
                    old(self)@,
                    final(self)@,
                    r,
                    (Instr::Draw { x: vxindex, y: vyindex, n: height }),
                    rb,
                ),
            wf(final(self)@),
    {
        let vx = self.registers[vxindex];
        let vy = self.registers[vyindex];
        let rows: u8 = if vy as usize >= DISPLAY_HEIGHT {
            0
        } else if (height as usize) <= DISPLAY_HEIGHT - (vy as usize) {
            height
        } else {
            (DISPLAY_HEIGHT - vy as usize) as u8
        };
        proof {
            assert(rows as int == draw_rows(vy as int, height as int));
        }
        if rows > 0 && self.i + (rows as usize) > MEM_SIZE {
            return Err(
                ExecFault::MemoryOutOfRange {
                    addr: self.i + (rows as usize) - 1,
                    pc: self.pc - 2,
                },
            );
        }
        let ghost pre_view = self@;
        let ghost disp0 = self@.display;
        let ghost dirty0 = self@.display_dirty;
        let mut carry = false;
        let mut row: u8 = 0;
        proof {
            lemma_sprite_zero(disp0, pre_view.memory, pre_view.i, vx as int, vy as int);
            assert forall|a: int| 0 <= a < DISPLAY_SIZE implies disp0[a] == disp0[a] ^ sprite_bit(
                pre_view.memory,
                pre_view.i,
                vx as int,
                vy as int,
                0,
                a,
            ) by {
                lemma_addr_decompose(a);
                lemma_xor_bit(disp0[a], 0);
            }
        }
        while row < rows
            invariant
                wf(self@),
                wf(pre_view),
                0 <= row <= rows,
                vxindex < 16,
                vyindex < 16,
                vx == pre_view.registers[vxindex as int],
                vy == pre_view.registers[vyindex as int],
                rows as int == draw_rows(vy as int, height as int),
                rows > 0 ==> pre_view.i + rows <= MEM_SIZE,
                vy + rows <= DISPLAY_HEIGHT || rows == 0,
                disp0 == pre_view.display,
                dirty0 == pre_view.display_dirty,
                self@ == (VmView {
                    display: self@.display,
                    display_dirty: self@.display_dirty,
                    ..pre_view
                }),
                self@.display.len() == DISPLAY_SIZE,
                forall|a: int|
                    0 <= a < DISPLAY_SIZE ==> self@.display[a] == disp0[a] ^ sprite_bit(
                        pre_view.memory,
                        pre_view.i,
                        vx as int,
                        vy as int,
                        row as int,
                        a,
                    ),
                carry == draw_collision(
                    disp0,
                    pre_view.memory,
                    pre_view.i,
                    vx as int,
                    vy as int,
                    row as int,
                ),
                self@.display_dirty == (dirty0 || draw_any_bit(
                    pre_view.memory,
                    pre_view.i,
                    vx as int,
                    vy as int,
                    row as int,
                )),
            decreases rows - row,
        {
            let row_index = vy as usize + row as usize;
            let mem_addr = self.i + row as usize;
            let row_val = self.memory[mem_addr];
            proof {
                lemma_sprite_step(
                    disp0,
                    pre_view.memory,
                    pre_view.i,
                    vx as int,
                    vy as int,
                    row as int,
                );
                assert forall|a: int|
                    0 <= a < DISPLAY_SIZE && a / (DISPLAY_WIDTH as int) == row_index implies
                    #[trigger] self@.display[a] == disp0[a] by {
                    lemma_addr_decompose(a);
                    assert(sprite_bit_at(
                        pre_view.memory,
                        pre_view.i,
                        vx as int,
                        vy as int,
                        row as int,
                        a % (DISPLAY_WIDTH as int),
                        a / (DISPLAY_WIDTH as int),
                    ) == 0);
                    lemma_xor_bit(disp0[a], 0);
                }
                lemma_row_collision_same(
                    self@.display,
                    disp0,
                    row_val,
                    vx as int,
                    row_index as int,
                );
            }
            let ghost mid_view = self@;
            let col = self.xor_display_row(vx, row_index as u8, row_val);
            if col {
                carry = true;
            }
            proof {
                assert forall|a: int| 0 <= a < DISPLAY_SIZE implies self@.display[a] == disp0[a]
                    ^ sprite_bit(
                    pre_view.memory,
                    pre_view.i,
                    vx as int,
                    vy as int,
                    row + 1,
                    a,
                ) by {
                    lemma_addr_decompose(a);
                    let px = a % (DISPLAY_WIDTH as int);
                    let py = a / (DISPLAY_WIDTH as int);
                    if py == row_index {
                        assert(self@.display[a] == mid_view.display[a] ^ row_bit(
                            row_val,
                            vx as int,
                            px,
                        ));
                        assert(mid_view.display[a] == disp0[a]);
                    } else {
                        assert(self@.display[a] == mid_view.display[a]);
                        assert(sprite_bit_at(
                            pre_view.memory,
                            pre_view.i,
                            vx as int,
                            vy as int,
                            row + 1,
                            px,
                            py,
                        ) == sprite_bit_at(
                            pre_view.memory,
                            pre_view.i,
                            vx as int,
                            vy as int,
                            row as int,
                            px,
                            py,
                        ));
                    }
                }
            }
            row = row + 1;
        }
        self.set_carry(carry);
        proof {
            assert(self@.display =~= draw_display(
                disp0,
                pre_view.memory,
                pre_view.i,
                vx as int,
                vy as int,
                rows as int,
            ));
        }
        Ok(())
    }

    /// Write registers 0 through x to memory starting at I (opcode FX55); I
    /// is unchanged. Faults when the writes would leave memory.
    fn mem_reg_dump(&mut self, vxindex: usize) -> (r: Result<(), ExecFault>)
        requires
            wf(old(self)@),
            vxindex < 16,
            old(self)@.pc >= 2,
        ensures
            forall|rb: u8|
                instr_obeys(old(self)@, final(self)@, r, (Instr::RegDump { x: vxindex }), rb),
            wf(final(self)@),
    {
        if self.i + vxindex >= MEM_SIZE {
            return Err(ExecFault::MemoryOutOfRange { addr: self.i + vxindex, pc: self.pc - 2 });
        }
        let ghost pre_view = self@;
        let mut k: usize = 0;
        while k < vxindex + 1
            invariant
                wf(self@),
                0 <= k <= vxindex + 1,
                vxindex < 16,
                pre_view.i + vxindex < MEM_SIZE,
                self@ == (VmView { memory: self@.memory, ..pre_view }),
                self@.memory.len() == MEM_SIZE,
                forall|a: int|
                    0 <= a < MEM_SIZE ==> self@.memory[a] == (if pre_view.i <= a < pre_view.i
                        + k {
                        pre_view.registers[a - pre_view.i]
                    } else {
                        pre_view.memory[a]
                    }),
            decreases vxindex + 1 - k,
        {
            let v = self.registers[k];
            let addr = self.i + k;
            self.memory[addr] = v;
            k = k + 1;
        }
        proof {
            assert(self@.memory =~= Seq::new(
                MEM_SIZE as nat,
                |a: int|
                    if pre_view.i <= a <= pre_view.i + vxindex {
                        pre_view.registers[a - pre_view.i]
                    } else {
                        pre_view.memory[a]
                    },
            ));
        }
        Ok(())
    }

    /// Read memory starting at I into registers 0 through x (opcode FX65); I
    /// is unchanged. Faults when the reads would leave memory.
    fn mem_reg_load(&mut self, vxindex: usize) -> (r: Result<(), ExecFault>)
        requires
            wf(old(self)@),
            vxindex < 16,
            old(self)@.pc >= 2,
        ensures
            forall|rb: u8|
                instr_obeys(old(self)@, final(self)@, r, (Instr::RegLoad { x: vxindex }), rb),
            wf(final(self)@),
    {
        if self.i + vxindex >= MEM_SIZE {
            return Err(ExecFault::MemoryOutOfRange { addr: self.i + vxindex, pc: self.pc - 2 });
        }
        let ghost pre_view = self@;
        let mut k: usize = 0;
        while k < vxindex + 1
            invariant
                wf(self@),
                0 <= k <= vxindex + 1,
                vxindex < 16,
                pre_view.i + vxindex < MEM_SIZE,
                self@ == (VmView { registers: self@.registers, ..pre_view }),
                self@.registers.len() == REGISTER_COUNT,
                forall|kk: int|
                    0 <= kk < REGISTER_COUNT ==> self@.registers[kk] == (if kk < k {
                        pre_view.memory[pre_view.i + kk]
                    } else {
                        pre_view.registers[kk]
                    }),
            decreases vxindex + 1 - k,
        {
            let addr = self.i + k;
            let v = self.memory[addr];
            self.registers[k] = v;
            k = k + 1;
        }
        proof {
            assert(self@.registers =~= Seq::new(
                REGISTER_COUNT as nat,
                |kk: int|
                    if 0 <= kk <= vxindex {
                        pre_view.memory[pre_view.i + kk]
                    } else {
                        pre_view.registers[kk]
                    },
            ));
        }
        Ok(())
    }
}

} // verus!

verus! {

use vstd::arithmetic::div_mod::lemma_div_basics_4;
use vstd::arithmetic::div_mod::lemma_div_basics_5;
use vstd::arithmetic::div_mod::lemma_div_is_ordered;
use crate::FONT_CHAR_COUNT;
use crate::FONT_CHAR_SIZE;
use crate::MAX_OPCODE_TICKS;
use crate::PROGRAM_START;
use crate::UPDATE_TICKS;
use crate::opcode::LoadError;
use crate::opcode::decode_op;
use crate::semantics::UpdateActions;
use crate::semantics::fetch_opcode;
use crate::semantics::font_seq;
use crate::semantics::frame_spec;
use crate::semantics::loaded_view;
use crate::semantics::opcode_tick_obeys;
use crate::semantics::sleep_spec;
use crate::semantics::step_obeys;
use crate::semantics::update_obeys;

impl Interpreter {
    /// Fetch the two bytes at the program counter, advance it past them, and
    /// execute the decoded instruction with the given random byte. On a
    /// fault the machine is left exactly as it was and the fault is
    /// returned; any fault is terminal.
    pub fn process_opcode_with(&mut self, rand_byte: u8) -> (r: Result<(), ExecFault>)
        requires
            wf(old(self)@),
        ensures
            step_obeys(old(self)@, final(self)@, r, rand_byte),
            wf(final(self)@),
    {
        if self.pc + 1 >= MEM_SIZE {
            return Err(ExecFault::MemoryOutOfRange { addr: self.pc + 1, pc: self.pc });
        }
        let op1 = self.memory[self.pc] as u16;
        let op2 = self.memory[self.pc + 1] as u16;
        let opcode = (op1 << 8) | op2;
        proof {
            assert(opcode == fetch_opcode(self@.memory, self@.pc));
        }
        self.inc_pc();
        let ghost adv = self@;
        let instr = decode_op(opcode);
        let result: Result<(), ExecFault> = match instr {
            Instr::ClearScreen => {
                self.disp_clear();
                Ok(())
            },
            Instr::Return => {
                self.flow_return();
                Ok(())
            },
            Instr::NativeCall { nnn } => self.call_machine_code_routine(nnn),
            Instr::Jump { nnn } => {
                self.flow_goto(nnn);
                Ok(())
            },
            Instr::Call { nnn } => self.flow_call_subroutine(nnn),
            Instr::SkipEqImm { x, nn } => {
                self.cond_if_vx_nn_eq_skip(x, nn);
                Ok(())
            },
            Instr::SkipNeImm { x, nn } => {
                self.cond_if_vx_nn_neq_skip(x, nn);
                Ok(())
            },
            Instr::SkipEqReg { x, y } => {
                self.cond_if_vx_vy_eq_skip(x, y);
                Ok(())
            },
            Instr::LoadImm { x, nn } => {
                self.const_set_vx_nn(x, nn);
                Ok(())
            },
            Instr::AddImm { x, nn } => {
                self.const_set_add_vx_nn(x, nn);
                Ok(())
            },
            Instr::Move { x, y } => {
                self.assig_vx_to_vy(x, y);
                Ok(())
            },
            Instr::Or { x, y } => {
                self.bitop_vx_oreq_vy(x, y);
                Ok(())
            },
            Instr::And { x, y } => {
                self.bitop_vx_andeq_vy(x, y);
                Ok(())
            },
            Instr::Xor { x, y } => {
                self.bitop_vx_xoreq_vy(x, y);
                Ok(())
            },
            Instr::AddCarry { x, y } => {
                self.math_vx_pleq_vy(x, y);
                Ok(())
            },
            Instr::SubBorrow { x, y } => {
                self.math_vx_mieq_vy(x, y);
                Ok(())
            },
            Instr::ShiftRight { x } => {
                self.bitop_vx_rsh(x);
                Ok(())
            },
            Instr::SubBorrowRev { x, y } => {
                self.math_vx_eq_vy_mi_vx(x, y);
                Ok(())
            },
            Instr::ShiftLeft { x } => {
                self.bitop_vx_lsh(x);
                Ok(())
            },
            Instr::SkipNeReg { x, y } => {
                self.cond_if_vx_vy_neq_skip(x, y);
                Ok(())
            },
            Instr::SetIndex { nnn } => {
                self.mem_set_i(nnn);
                Ok(())
            },
            Instr::JumpV0 { nnn } => {
                self.flow_jump_v0_pl(nnn);
                Ok(())
            },
            Instr::RandomMask { x, nn } => {
                self.rand_vx_rand_and_nn(x, nn, rand_byte);
                Ok(())
            },
            Instr::Draw { x, y, n } => self.display_draw(x, y, n),
            Instr::SkipKey { x } => self.keyop_if_vx_pressed_skip(x),
            Instr::SkipNoKey { x } => self.keyop_if_vx_not_pressed_skip(x),
            Instr::ReadDelay { x } => {
                self.timer_set_vx_delay(x);
                Ok(())
            },
            Instr::WaitKey { x } => {
                self.keyop_vx_set_key(x);
                Ok(())
            },
            Instr::SetDelay { x } => {
                self.timer_set_delay_vx(x);
                Ok(())
            },
            Instr::SetSound { x } => {
                self.sound_set_timer_vx(x);
                Ok(())
            },
            Instr::AddIndex { x } => {
                self.mem_i_pleq_vx(x);
                Ok(())
            },
            Instr::FontAddr { x } => {
                self.mem_set_i_sprite_addr_vx(x);
                Ok(())
            },
            Instr::StoreBcd { x } => self.bcd_set_i_vx(x),
            Instr::RegDump { x } => self.mem_reg_dump(x),
            Instr::RegLoad { x } => self.mem_reg_load(x),
            Instr::Unknown { op } => Err(
                ExecFault::UnknownOpcode { opcode: op, pc: self.pc - 2 },
            ),
        };
        proof {
            assert(crate::semantics::instr_obeys(adv, self@, result, instr, rand_byte));
        }
        if result.is_err() {
            self.dec_pc();
            proof {
                assert(self@ =~= old(self)@);
            }
        }
        result
    }

    /// Fetch, decode and execute one instruction, drawing the random byte
    /// for the masked-random opcode from the random source. The state
    /// follows the step transition for some byte; which byte came back is
    /// not specified.
    pub fn process_opcode(&mut self) -> (r: Result<(), ExecFault>)
        requires
            wf(old(self)@),
        ensures
            exists|rb: u8| #[trigger] step_obeys(old(self)@, final(self)@, r, rb),
            wf(final(self)@),
    {
        let rand_byte = random_byte();
        let r = self.process_opcode_with(rand_byte);
        proof {
            assert(step_obeys(old(self)@, self@, r, rand_byte));
        }
        r
    }

    /// Service the opcode obligation at time `ticks`: execute one
    /// instruction and reschedule the opcode deadline one period ahead.
    fn handle_opcode(&mut self, ticks: u128) -> (r: Result<(), ExecFault>)
        requires
            wf(old(self)@),
            ticks + MAX_OPCODE_TICKS <= u128::MAX,
        ensures
            exists|rb: u8| #[trigger] opcode_tick_obeys(old(self)@, final(self)@, ticks as int, r, rb),
            wf(final(self)@),
    {
        let r = self.process_opcode();
        let ghost rb = choose|rb: u8| step_obeys(old(self)@, self@, r, rb);
        if r.is_ok() {
            self.next_opcode_time = ticks + self.opcode_ticks;
        }
        proof {
            assert(opcode_tick_obeys(old(self)@, self@, ticks as int, r, rb));
        }
        r
    }

    /// Service the frame obligation at time `ticks`: decrement both timers,
    /// saturating at zero, and reschedule the frame deadline one fixed
    /// period ahead. Presenting the display and driving the audio sink are
    /// the run loop's part.
    fn handle_update(&mut self, ticks: u128)
        requires
            wf(old(self)@),
            ticks + UPDATE_TICKS <= u128::MAX,
        ensures
            final(self)@ == frame_spec(old(self)@, ticks as int),
            wf(final(self)@),
    {
        self.dec_delay_timer();
        self.dec_sound_timer();
        self.next_update_time = ticks + UPDATE_TICKS;
    }

    /// Time to sleep until just before the sooner of the two deadlines:
    /// nine tenths of the remaining time.
    fn do_sleep_micros(&self, ticks: u128) -> (r: u128)
        requires
            self@.next_opcode_time >= ticks,
            self@.next_update_time >= ticks,
        ensures
            Some(r) == sleep_spec(self@, ticks as int, true),
    {
        let soonest = if self.next_opcode_time < self.next_update_time {
            self.next_opcode_time
        } else {
            self.next_update_time
        };
        let diff = soonest - ticks;
        let tenth = diff / 10;
        proof {
            lemma_div_is_ordered(diff as int, u128::MAX as int, 10);
        }
        tenth * 9
    }

    /// One scheduler iteration against the monotonic clock reading `ticks`
    /// (microseconds since start). Executes one instruction when the opcode
    /// deadline has passed and runs the frame tick when the frame deadline
    /// has passed; the two schedules are independent. The returned actions
    /// tell the run loop whether to present the display and set the tone,
    /// and how long to sleep. A fault leaves the machine untouched and is
    /// terminal.
    pub fn update(&mut self, ticks: u128) -> (r: Result<UpdateActions, ExecFault>)
        requires
            wf(old(self)@),
            ticks + MAX_OPCODE_TICKS + UPDATE_TICKS <= u128::MAX,
        ensures
            exists|rb: u8| #[trigger] update_obeys(old(self)@, final(self)@, ticks as int, r, rb),
            wf(final(self)@),
    {
        let opcode_fired = ticks >= self.next_opcode_time;
        let frame_fired = ticks >= self.next_update_time;
        let ghost mut rbw: u8 = 0u8;
        if opcode_fired {
            let res = self.handle_opcode(ticks);
            proof {
                rbw = choose|rb: u8|
                    opcode_tick_obeys(old(self)@, self@, ticks as int, res, rb);
            }
            match res {
                Ok(()) => {},
                Err(f) => {
                    proof {
                        assert(res == Err::<(), ExecFault>(f));
                        assert(update_obeys(
                            old(self)@,
                            self@,
                            ticks as int,
                            Err::<UpdateActions, ExecFault>(f),
                            rbw,
                        ));
                    }
                    return Err(f);
                },
            }
        }
        if frame_fired {
            self.handle_update(ticks);
        }
        let sound_on = self.sound_timer > 0;
        let sleep = if opcode_fired || frame_fired {
            Some(self.do_sleep_micros(ticks))
        } else {
            None
        };
        let act = UpdateActions { opcode_fired, frame_fired, sound_on, sleep_micros: sleep };
        proof {
            assert(update_obeys(
                old(self)@,
                self@,
                ticks as int,
                Ok::<UpdateActions, ExecFault>(act),
                rbw,
            ));
        }
        Ok(act)
    }
}

} // verus!

verus! {

impl Interpreter {
    /// The hex-digit font glyphs, as executable data.
    fn font_data() -> (r: Vec<u8>)
        ensures
            r@ == font_seq(),
    {
        let font: Vec<u8> = vec![
            0xF0u8, 0x90, 0x90, 0x90, 0xF0,
            0x20, 0x60, 0x20, 0x20, 0x70,
            0xF0, 0x10, 0xF0, 0x80, 0xF0,
            0xF0, 0x10, 0xF0, 0x10, 0xF0,
            0x90, 0x90, 0xF0, 0x10, 0x10,
            0xF0, 0x80, 0xF0, 0x10, 0xF0,
            0xF0, 0x80, 0xF0, 0x90, 0xF0,
            0xF0, 0x10, 0x20, 0x40, 0x40,
            0xF0, 0x90, 0xF0, 0x90, 0xF0,
            0xF0, 0x90, 0xF0, 0x10, 0xF0,
            0xF0, 0x90, 0xF0, 0x90, 0x90,
            0xE0, 0x90, 0xE0, 0x90, 0xE0,
            0xF0, 0x80, 0x80, 0x80, 0xF0,
            0xE0, 0x90, 0x90, 0x90, 0xE0,
            0xF0, 0x80, 0xF0, 0x80, 0xF0,
            0xF0, 0x80, 0xF0, 0x80, 0x80,
        ];
        proof {
            assert(font@ =~= font_seq());
        }
        font
    }

    /// Create a machine from a program image and a clock speed, with both
    /// scheduler deadlines at `start_ticks` (microseconds since start).
    /// Memory is zeroed, the font written at address 0 and the image at the
    /// program origin; registers, stack, timers and display are cleared and
    /// the program counter is at the origin. Fails exactly when the image
    /// does not fit in the program region.
    pub fn load(rom: &Vec<u8>, clockspeed: u32, start_ticks: u128) -> (r: Result<
        Interpreter,
        LoadError,
    >)
        requires
            clockspeed >= 1,
        ensures
            rom@.len() <= MEM_SIZE - PROGRAM_START ==> (r matches Ok(interp) && interp@
                == loaded_view(rom@, clockspeed, start_ticks as int) && wf(interp@)),
            rom@.len() > MEM_SIZE - PROGRAM_START ==> (r matches Err(e) && e
                == LoadError::RomTooLarge),
    {
        if rom.len() > MEM_SIZE - PROGRAM_START {
            return Err(LoadError::RomTooLarge);
        }
        let mut memory: Vec<u8> = vec![0u8; MEM_SIZE];
        let font = Self::font_data();
        proof {
            assert(font_seq().len() == 80);
        }
        let mut k: usize = 0;
        while k < FONT_CHAR_SIZE * FONT_CHAR_COUNT
            invariant
                memory@.len() == MEM_SIZE,
                font@ == font_seq(),
                0 <= k <= 80,
                forall|a: int|
                    0 <= a < MEM_SIZE ==> memory@[a] == (if 0 <= a < k {
                        font_seq()[a]
                    } else {
                        0u8
                    }),
            decreases 80 - k,
        {
            memory[k] = font[k];
            k = k + 1;
        }
        let mut j: usize = 0;
        while j < rom.len()
            invariant
                memory@.len() == MEM_SIZE,
                rom@.len() <= MEM_SIZE - PROGRAM_START,
                0 <= j <= rom@.len(),
                forall|a: int|
                    0 <= a < MEM_SIZE ==> memory@[a] == (if 0 <= a < 80 {
                        font_seq()[a]
                    } else if PROGRAM_START <= a < PROGRAM_START + j {
                        rom@[a - PROGRAM_START]
                    } else {
                        0u8
                    }),
            decreases rom@.len() - j,
        {
            let b = rom[j];
            memory[PROGRAM_START + j] = b;
            j = j + 1;
        }
        let registers: Vec<u8> = vec![0u8; REGISTER_COUNT];
        let opcode_ticks = MAX_OPCODE_TICKS / (clockspeed as u128);
        proof {
            lemma_div_basics_4(MAX_OPCODE_TICKS as int, clockspeed as int);
            lemma_div_basics_5(MAX_OPCODE_TICKS as int, clockspeed as int);
        }
        let interp = Interpreter {
            video_device: VideoDevice::new(),
            keyboard_device: KeyboardDevice::new(),
            opcode_ticks,
            memory,
            registers,
            stack: Vec::new(),
            sp: 0,
            pc: PROGRAM_START,
            i: 0,
            delay_timer: 0,
            sound_timer: 0,
            next_opcode_time: start_ticks,
            next_update_time: start_ticks,
        };
        proof {
            let target = loaded_view(rom@, clockspeed, start_ticks as int);
            assert(interp@.memory =~= target.memory);
            assert(interp@.registers =~= target.registers);
            assert(interp@.stack =~= target.stack);
            assert(interp@ =~= target);
        }
        Ok(interp)
    }

    /// Record the sampled state of one key of the hex pad.
    pub fn set_key(&mut self, index: usize, pressed: bool)
        requires
            wf(old(self)@),
            index < KEY_COUNT,
        ensures
            final(self)@ == (VmView {
                keys: old(self)@.keys.update(index as int, pressed),
                ..old(self)@
            }),
            wf(final(self)@),
    {
        self.keyboard_device.set_key(index, pressed);
    }

    /// Read one general-purpose register.
    pub fn get_register(&self, index: usize) -> (r: u8)
        requires
            wf(self@),
            index < REGISTER_COUNT,
        ensures
            r == self@.registers[index as int],
    {
        self.registers[index]
    }

    /// The program counter.
    pub fn get_pc(&self) -> (r: usize)
        ensures
            r == self@.pc,
    {
        self.pc
    }

    /// The address register I.
    pub fn get_i(&self) -> (r: usize)
        ensures
            r == self@.i,
    {
        self.i
    }

    /// The call-stack depth.
    pub fn get_sp(&self) -> (r: usize)
        ensures
            r == self@.sp,
    {
        self.sp
    }

    /// The delay timer.
    pub fn get_delay_timer(&self) -> (r: u8)
        ensures
            r == self@.delay_timer,
    {
        self.delay_timer
    }

    /// The sound timer; the tone is on exactly while this is non-zero.
    pub fn get_sound_timer(&self) -> (r: u8)
        ensures
            r == self@.sound_timer,
    {
        self.sound_timer
    }

    /// Read one byte of machine memory.
    pub fn get_memory_byte(&self, addr: usize) -> (r: u8)
        requires
            wf(self@),
            addr < MEM_SIZE,
        ensures
            r == self@.memory[addr as int],
    {
        self.memory[addr]
    }

    /// Read the display pixel at (x, y): 0 or 1.
    pub fn display_pixel(&self, x: u8, y: u8) -> (r: u8)
        requires
            wf(self@),
            x < DISPLAY_WIDTH,
            y < DISPLAY_HEIGHT,
        ensures
            r == self@.display[x + y * DISPLAY_WIDTH],
            r <= 1,
    {
        self.video_device.get_pixel(x, y)
    }

    /// Whether any pixel changed since the last present.
    pub fn display_is_dirty(&self) -> (r: bool)
        ensures
            r == self@.display_dirty,
    {
        self.video_device.is_dirty()
    }

    /// Record that the run loop has presented the display.
    pub fn display_presented(&mut self)
        requires
            wf(old(self)@),
        ensures
            final(self)@ == (VmView { display_dirty: false, ..old(self)@ }),
            wf(final(self)@),
    {
        self.video_device.present();
    }
}

} // verus!
