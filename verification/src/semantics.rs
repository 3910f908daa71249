//! The mathematical model of the machine: the state view, its
//! well-formedness invariant, and the state-transition function that gives
//! each instruction its exact meaning.

use vstd::prelude::*;

verus! {

use crate::DISPLAY_HEIGHT;
use crate::DISPLAY_SIZE;
use crate::DISPLAY_WIDTH;
use crate::FONT_CHAR_SIZE;
use crate::KEY_COUNT;
use crate::MAX_OPCODE_TICKS;
use crate::MEM_SIZE;
use crate::PROGRAM_START;
use crate::REGISTER_COUNT;
use crate::STACK_SLOTS;
use crate::UPDATE_TICKS;
use crate::keyboard::lowest_pressed;
use crate::keyboard::no_keys;
use crate::opcode::ExecFault;
use crate::opcode::Instr;
use crate::opcode::decode;
use crate::video::blank_display;

/// The machine state as mathematics: memory, register file, call stack,
/// address register, program counter, timers, display, sampled keys, and the
/// two scheduler deadlines (all times in microseconds).
#[verifier::ext_equal]
pub ghost struct VmView {
    pub memory: Seq<u8>,
    pub registers: Seq<u8>,
    pub stack: Seq<usize>,
    pub sp: int,
    pub pc: int,
    pub i: int,
    pub delay_timer: u8,
    pub sound_timer: u8,
    pub display: Seq<u8>,
    pub display_dirty: bool,
    pub keys: Seq<bool>,
    pub opcode_ticks: int,
    pub next_opcode_time: int,
    pub next_update_time: int,
}

/// Well-formedness of a machine state: every component has its fixed size,
/// display cells are single bits, the stack pointer mirrors the stack and
/// stays within capacity, and the program counter and address register fit
/// in 16 bits.
pub open spec fn wf(v: VmView) -> bool {
    &&& v.memory.len() == MEM_SIZE
    &&& v.registers.len() == REGISTER_COUNT
    &&& v.display.len() == DISPLAY_SIZE
    &&& (forall|k: int| 0 <= k < DISPLAY_SIZE ==> v.display[k] <= 1)
    &&& v.keys.len() == KEY_COUNT
    &&& v.stack.len() == v.sp
    &&& 0 <= v.sp < STACK_SLOTS
    &&& (forall|k: int| 0 <= k < v.stack.len() ==> v.stack[k] <= 0xFFFF)
    &&& 0 <= v.pc <= 0xFFFF
    &&& 0 <= v.i < 0x10000
    &&& 0 <= v.opcode_ticks <= MAX_OPCODE_TICKS
    &&& 0 <= v.next_opcode_time <= u128::MAX
    &&& 0 <= v.next_update_time <= u128::MAX
}

/// 1 for true, 0 for false: the value written to the flag register.
pub open spec fn flag_val(b: bool) -> u8 {
    if b {
        1
    } else {
        0
    }
}

/// 8-bit addition, wrapping modulo 256.
pub open spec fn wrap_add8(a: u8, b: u8) -> u8 {
    ((a + b) % 256) as u8
}

/// 8-bit subtraction, wrapping modulo 256 (Euclidean remainder, so the
/// result of a borrow is `a - b + 256`).
pub open spec fn wrap_sub8(a: u8, b: u8) -> u8 {
    ((a - b) % 256) as u8
}

/// Decrement a countdown timer by one tick, saturating at zero.
pub open spec fn dec_timer(t: u8) -> u8 {
    if t > 0 {
        (t - 1) as u8
    } else {
        0
    }
}

/// The big-endian instruction word assembled from the two bytes at `pc`.
pub open spec fn fetch_opcode(mem: Seq<u8>, pc: int) -> u16 {
    ((mem[pc] as u16) << 8) | (mem[pc + 1] as u16)
}

/// The sprite bit that one row byte contributes to column `px`, for a row
/// drawn with its leftmost (most significant) bit at column `vx`. Columns
/// outside `vx..vx+8` receive 0.
pub open spec fn row_bit(row_val: u8, vx: int, px: int) -> u8 {
    if vx <= px < vx + 8 {
        (row_val >> ((7 - (px - vx)) as u8)) & 1
    } else {
        0
    }
}

/// Number of sprite rows actually drawn: `n` clipped to the rows that lie
/// above the bottom edge of the display.
pub open spec fn draw_rows(vy: int, n: int) -> int {
    if vy >= DISPLAY_HEIGHT {
        0
    } else if n <= DISPLAY_HEIGHT - vy {
        n
    } else {
        DISPLAY_HEIGHT - vy
    }
}

/// The sprite bit XORed into the pixel at (px, py) when `rows` rows from
/// memory address `i` are drawn at (vx, vy). Pixels outside the sprite's
/// clipped footprint receive 0.
pub open spec fn sprite_bit_at(
    mem: Seq<u8>,
    i: int,
    vx: int,
    vy: int,
    rows: int,
    px: int,
    py: int,
) -> u8 {
    if vy <= py < vy + rows {
        row_bit(mem[i + (py - vy)], vx, px)
    } else {
        0
    }
}

/// The sprite bit for display cell `a`, in row-major order.
pub open spec fn sprite_bit(mem: Seq<u8>, i: int, vx: int, vy: int, rows: int, a: int) -> u8 {
    sprite_bit_at(mem, i, vx, vy, rows, a % (DISPLAY_WIDTH as int), a / (DISPLAY_WIDTH as int))
}

/// The display after the sprite is XORed in.
pub open spec fn draw_display(
    disp: Seq<u8>,
    mem: Seq<u8>,
    i: int,
    vx: int,
    vy: int,
    rows: int,
) -> Seq<u8> {
    Seq::new(DISPLAY_SIZE as nat, |a: int| disp[a] ^ sprite_bit(mem, i, vx, vy, rows, a))
}

/// Whether drawing the sprite turns some pixel from set to unset: the
/// collision reported in the flag register.
pub open spec fn draw_collision(
    disp: Seq<u8>,
    mem: Seq<u8>,
    i: int,
    vx: int,
    vy: int,
    rows: int,
) -> bool {
    exists|px: int, py: int|
        0 <= px < DISPLAY_WIDTH && 0 <= py < DISPLAY_HEIGHT && disp[py * DISPLAY_WIDTH + px] == 1
            && #[trigger] sprite_bit_at(mem, i, vx, vy, rows, px, py) == 1
}

/// Whether drawing the sprite changes any pixel at all: what raises the
/// display's dirty flag.
pub open spec fn draw_any_bit(mem: Seq<u8>, i: int, vx: int, vy: int, rows: int) -> bool {
    exists|px: int, py: int|
        0 <= px < DISPLAY_WIDTH && 0 <= py < DISPLAY_HEIGHT && #[trigger] sprite_bit_at(
            mem,
            i,
            vx,
            vy,
            rows,
            px,
            py,
        ) == 1
}

/// Row-level collision: some set pixel of row `y` meets a set sprite bit.
pub open spec fn row_collision(disp: Seq<u8>, row_val: u8, vx: int, y: int) -> bool {
    exists|px: int|
        0 <= px < DISPLAY_WIDTH && disp[y * DISPLAY_WIDTH + px] == 1 && #[trigger] row_bit(
            row_val,
            vx,
            px,
        ) == 1
}

/// Row-level change: some on-screen column receives a set sprite bit.
pub open spec fn row_any(row_val: u8, vx: int) -> bool {
    exists|px: int| 0 <= px < DISPLAY_WIDTH && #[trigger] row_bit(row_val, vx, px) == 1
}

/// The meaning of one decoded instruction, applied to a state whose program
/// counter has already advanced past the instruction word. `rb` is the byte
/// drawn from the random source, consumed only by the masked-random
/// instruction. A fault leaves no defined successor state; the machine is
/// terminal.
pub open spec fn exec_instr_spec(pre: VmView, instr: Instr, rb: u8) -> Result<VmView, ExecFault> {
    let pc0 = (pre.pc - 2) as usize;
    match instr {
        Instr::ClearScreen => Ok(
            VmView { display: blank_display(), display_dirty: true, ..pre },
        ),
        Instr::Return => {
            if pre.stack.len() > 0 {
                Ok(
                    VmView {
                        pc: pre.stack.last() as int,
                        stack: pre.stack.drop_last(),
                        sp: pre.sp - 1,
                        ..pre
                    },
                )
            } else {
                Ok(pre)
            }
        },
        Instr::NativeCall { nnn } => Err(ExecFault::NotImplemented { addr: nnn, pc: pc0 }),
        Instr::Jump { nnn } => Ok(VmView { pc: nnn as int, ..pre }),
        Instr::Call { nnn } => {
            if pre.sp == STACK_SLOTS - 1 {
                Err(ExecFault::StackOverflow { pc: pc0 })
            } else {
                Ok(
                    VmView {
                        stack: pre.stack.push(pre.pc as usize),
                        sp: pre.sp + 1,
                        pc: nnn as int,
                        ..pre
                    },
                )
            }
        },
        Instr::SkipEqImm { x, nn } => Ok(
            VmView { pc: if pre.registers[x as int] == nn { pre.pc + 2 } else { pre.pc }, ..pre },
        ),
        Instr::SkipNeImm { x, nn } => Ok(
            VmView { pc: if pre.registers[x as int] != nn { pre.pc + 2 } else { pre.pc }, ..pre },
        ),
        Instr::SkipEqReg { x, y } => Ok(
            VmView {
                pc: if pre.registers[x as int] == pre.registers[y as int] {
                    pre.pc + 2
                } else {
                    pre.pc
                },
                ..pre
            },
        ),
        Instr::LoadImm { x, nn } => Ok(
            VmView { registers: pre.registers.update(x as int, nn), ..pre },
        ),
        Instr::AddImm { x, nn } => Ok(
            VmView {
                registers: pre.registers.update(x as int, wrap_add8(pre.registers[x as int], nn)),
                ..pre
            },
        ),
        Instr::Move { x, y } => Ok(
            VmView { registers: pre.registers.update(x as int, pre.registers[y as int]), ..pre },
        ),
        Instr::Or { x, y } => Ok(
            VmView {
                registers: pre.registers.update(
                    x as int,
                    pre.registers[x as int] | pre.registers[y as int],
                ),
                ..pre
            },
        ),
        Instr::And { x, y } => Ok(
            VmView {
                registers: pre.registers.update(
                    x as int,
                    pre.registers[x as int] & pre.registers[y as int],
                ),
                ..pre
            },
        ),
        Instr::Xor { x, y } => Ok(
            VmView {
                registers: pre.registers.update(
                    x as int,
                    pre.registers[x as int] ^ pre.registers[y as int],
                ),
                ..pre
            },
        ),
        Instr::AddCarry { x, y } => {
            let sum = pre.registers[x as int] + pre.registers[y as int];
            let flagged = pre.registers.update(15, flag_val(sum > 255));
            Ok(
                VmView {
                    registers: flagged.update(
                        x as int,
                        wrap_add8(pre.registers[x as int], pre.registers[y as int]),
                    ),
                    ..pre
                },
            )
        },
        Instr::SubBorrow { x, y } => {
            let flagged = pre.registers.update(
                15,
                flag_val(pre.registers[x as int] >= pre.registers[y as int]),
            );
            Ok(
                VmView {
                    registers: flagged.update(
                        x as int,
                        wrap_sub8(pre.registers[x as int], pre.registers[y as int]),
                    ),
                    ..pre
                },
            )
        },
        Instr::ShiftRight { x } => {
            let flagged = pre.registers.update(15, pre.registers[x as int] & 1);
            Ok(
                VmView {
                    registers: flagged.update(x as int, flagged[x as int] / 2),
                    ..pre
                },
            )
        },
        Instr::SubBorrowRev { x, y } => {
            let flagged = pre.registers.update(
                15,
                flag_val(pre.registers[y as int] >= pre.registers[x as int]),
            );
            Ok(
                VmView {
                    registers: flagged.update(
                        x as int,
                        wrap_sub8(pre.registers[y as int], pre.registers[x as int]),
                    ),
                    ..pre
                },
            )
        },
        Instr::ShiftLeft { x } => {
            let flagged = pre.registers.update(15, flagged_top_bit(pre.registers[x as int]));
            Ok(
                VmView {
                    registers: flagged.update(x as int, wrap_add8(flagged[x as int], flagged[x as int])),
                    ..pre
                },
            )
        },
        Instr::SkipNeReg { x, y } => Ok(
            VmView {
                pc: if pre.registers[x as int] != pre.registers[y as int] {
                    pre.pc + 2
                } else {
                    pre.pc
                },
                ..pre
            },
        ),
        Instr::SetIndex { nnn } => Ok(VmView { i: nnn as int, ..pre }),
        Instr::JumpV0 { nnn } => Ok(VmView { pc: pre.registers[0] + nnn, ..pre }),
        Instr::RandomMask { x, nn } => Ok(
            VmView { registers: pre.registers.update(x as int, rb & nn), ..pre },
        ),
        Instr::Draw { x, y, n } => {
            let vx = pre.registers[x as int] as int;
            let vy = pre.registers[y as int] as int;
            let rows = draw_rows(vy, n as int);
            if rows > 0 && pre.i + rows > MEM_SIZE {
                Err(ExecFault::MemoryOutOfRange { addr: (pre.i + rows - 1) as usize, pc: pc0 })
            } else {
                Ok(
                    VmView {
                        display: draw_display(pre.display, pre.memory, pre.i, vx, vy, rows),
                        display_dirty: pre.display_dirty || draw_any_bit(
                            pre.memory,
                            pre.i,
                            vx,
                            vy,
                            rows,
                        ),
                        registers: pre.registers.update(
                            15,
                            flag_val(draw_collision(pre.display, pre.memory, pre.i, vx, vy, rows)),
                        ),
                        ..pre
                    },
                )
            }
        },
        Instr::SkipKey { x } => {
            let key = pre.registers[x as int];
            if key >= KEY_COUNT {
                Err(ExecFault::KeyOutOfRange { key, pc: pc0 })
            } else {
                Ok(
                    VmView {
                        pc: if pre.keys[key as int] { pre.pc + 2 } else { pre.pc },
                        keys: no_keys(),
                        ..pre
                    },
                )
            }
        },
        Instr::SkipNoKey { x } => {
            let key = pre.registers[x as int];
            if key >= KEY_COUNT {
                Err(ExecFault::KeyOutOfRange { key, pc: pc0 })
            } else {
                Ok(
                    VmView {
                        pc: if !pre.keys[key as int] { pre.pc + 2 } else { pre.pc },
                        keys: no_keys(),
                        ..pre
                    },
                )
            }
        },
        Instr::ReadDelay { x } => Ok(
            VmView { registers: pre.registers.update(x as int, pre.delay_timer), ..pre },
        ),
        Instr::WaitKey { x } => {
            match lowest_pressed(pre.keys) {
                Some(k) => Ok(
                    VmView {
                        registers: pre.registers.update(x as int, k),
                        keys: no_keys(),
                        ..pre
                    },
                ),
                None => Ok(VmView { pc: pre.pc - 2, ..pre }),
            }
        },
        Instr::SetDelay { x } => Ok(VmView { delay_timer: pre.registers[x as int], ..pre }),
        Instr::SetSound { x } => Ok(VmView { sound_timer: pre.registers[x as int], ..pre }),
        Instr::AddIndex { x } => Ok(
            VmView { i: (pre.i + pre.registers[x as int]) % 0x10000, ..pre },
        ),
        Instr::FontAddr { x } => Ok(
            VmView { i: FONT_CHAR_SIZE * pre.registers[x as int], ..pre },
        ),
        Instr::StoreBcd { x } => {
            if pre.i + 2 >= MEM_SIZE {
                Err(ExecFault::MemoryOutOfRange { addr: (pre.i + 2) as usize, pc: pc0 })
            } else {
                let vx = pre.registers[x as int];
                Ok(
                    VmView {
                        memory: pre.memory.update(pre.i, vx / 100).update(
                            pre.i + 1,
                            (vx / 10) % 10,
                        ).update(pre.i + 2, vx % 10),
                        ..pre
                    },
                )
            }
        },
        Instr::RegDump { x } => {
            if pre.i + x >= MEM_SIZE {
                Err(ExecFault::MemoryOutOfRange { addr: (pre.i + x) as usize, pc: pc0 })
            } else {
                Ok(
                    VmView {
                        memory: Seq::new(
                            MEM_SIZE as nat,
                            |a: int|
                                if pre.i <= a <= pre.i + x {
                                    pre.registers[a - pre.i]
                                } else {
                                    pre.memory[a]
                                },
                        ),
                        ..pre
                    },
                )
            }
        },
        Instr::RegLoad { x } => {
            if pre.i + x >= MEM_SIZE {
                Err(ExecFault::MemoryOutOfRange { addr: (pre.i + x) as usize, pc: pc0 })
            } else {
                Ok(
                    VmView {
                        registers: Seq::new(
                            REGISTER_COUNT as nat,
                            |k: int|
                                if 0 <= k <= x {
                                    pre.memory[pre.i + k]
                                } else {
                                    pre.registers[k]
                                },
                        ),
                        ..pre
                    },
                )
            }
        },
        Instr::Unknown { op } => Err(ExecFault::UnknownOpcode { opcode: op, pc: pc0 }),
    }
}

/// The top bit of a byte, as a flag value.
pub open spec fn flagged_top_bit(v: u8) -> u8 {
    v / 128
}

/// One fetch-decode-execute step: fault if the instruction word would be
/// read past the end of memory, otherwise advance the program counter by two
/// and execute the decoded instruction.
pub open spec fn step_spec(pre: VmView, rb: u8) -> Result<VmView, ExecFault> {
    if pre.pc + 1 >= MEM_SIZE {
        Err(ExecFault::MemoryOutOfRange { addr: (pre.pc + 1) as usize, pc: pre.pc as usize })
    } else {
        let op = fetch_opcode(pre.memory, pre.pc);
        let adv = VmView { pc: pre.pc + 2, ..pre };
        exec_instr_spec(adv, decode(op), rb)
    }
}

/// What one call of the stepping function must achieve: on a fault the
/// machine is untouched and the fault is returned; otherwise the state is
/// exactly the successor state.
pub open spec fn step_obeys(pre: VmView, post: VmView, r: Result<(), ExecFault>, rb: u8) -> bool {
    match step_spec(pre, rb) {
        Ok(v) => r is Ok && post == v,
        Err(f) => r == Err::<(), ExecFault>(f) && post == pre,
    }
}

/// What executing one decoded instruction must achieve, given the state
/// `pre` whose program counter has already advanced: on a fault the state is
/// untouched and the fault is returned; otherwise the state is exactly the
/// instruction's successor state.
pub open spec fn instr_obeys(
    pre: VmView,
    post: VmView,
    r: Result<(), ExecFault>,
    instr: Instr,
    rb: u8,
) -> bool {
    match exec_instr_spec(pre, instr, rb) {
        Ok(v) => r is Ok && post == v,
        Err(f) => r == Err::<(), ExecFault>(f) && post == pre,
    }
}

/// The frame tick at time `ticks`: both timers decrement saturating at zero
/// and the next frame deadline moves one period ahead.
pub open spec fn frame_spec(v: VmView, ticks: int) -> VmView {
    VmView {
        delay_timer: dec_timer(v.delay_timer),
        sound_timer: dec_timer(v.sound_timer),
        next_update_time: ticks + UPDATE_TICKS,
        ..v
    }
}

/// One opcode obligation at time `ticks`: execute one instruction and move
/// the opcode deadline one opcode period past `ticks`.
pub open spec fn opcode_tick_spec(pre: VmView, ticks: int, rb: u8) -> Result<VmView, ExecFault> {
    match step_spec(pre, rb) {
        Ok(v) => Ok(VmView { next_opcode_time: ticks + v.opcode_ticks, ..v }),
        Err(f) => Err(f),
    }
}

/// What one opcode obligation must achieve: on a fault the machine is
/// untouched; otherwise the state is exactly the successor with the opcode
/// deadline rescheduled.
pub open spec fn opcode_tick_obeys(
    pre: VmView,
    post: VmView,
    ticks: int,
    r: Result<(), ExecFault>,
    rb: u8,
) -> bool {
    match opcode_tick_spec(pre, ticks, rb) {
        Ok(v) => r is Ok && post == v,
        Err(f) => r == Err::<(), ExecFault>(f) && post == pre,
    }
}

/// One scheduler iteration at time `ticks`: if the opcode deadline has
/// passed, execute one instruction and move the opcode deadline ahead by the
/// opcode period; if the frame deadline has passed, run the frame tick. The
/// two schedules are independent.
pub open spec fn update_spec(pre: VmView, ticks: int, rb: u8) -> Result<VmView, ExecFault> {
    let opcode_due = ticks >= pre.next_opcode_time;
    let frame_due = ticks >= pre.next_update_time;
    let stepped = if opcode_due {
        opcode_tick_spec(pre, ticks, rb)
    } else {
        Ok(pre)
    };
    match stepped {
        Ok(v1) => Ok(if frame_due { frame_spec(v1, ticks) } else { v1 }),
        Err(f) => Err(f),
    }
}

/// The sleep before the next scheduler iteration: slightly less (nine
/// tenths) of the time until the sooner deadline, and only after an
/// iteration in which something fired.
pub open spec fn sleep_spec(v: VmView, ticks: int, acted: bool) -> Option<u128> {
    if acted {
        let soonest = if v.next_opcode_time < v.next_update_time {
            v.next_opcode_time
        } else {
            v.next_update_time
        };
        Some(((soonest - ticks) / 10 * 9) as u128)
    } else {
        None
    }
}

/// What the run loop must do after one scheduler iteration: whether to
/// render and signal audio, whether the tone is on, and how long to sleep.
#[derive(Clone, Copy, Debug)]
pub struct UpdateActions {
    /// An instruction was executed this iteration.
    pub opcode_fired: bool,
    /// The frame tick ran: the display should be presented and the audio
    /// sink updated.
    pub frame_fired: bool,
    /// The sound timer is non-zero: the tone should be on.
    pub sound_on: bool,
    /// How long to sleep before the next iteration; nothing fired when
    /// `None`.
    pub sleep_micros: Option<u128>,
}

/// What one scheduler iteration must achieve: the state follows
/// [`update_spec`], and the returned actions report what fired, the tone
/// state, and the sleep; on a fault the machine is untouched.
pub open spec fn update_obeys(
    pre: VmView,
    post: VmView,
    ticks: int,
    r: Result<UpdateActions, ExecFault>,
    rb: u8,
) -> bool {
    let opcode_due = ticks >= pre.next_opcode_time;
    let frame_due = ticks >= pre.next_update_time;
    match update_spec(pre, ticks, rb) {
        Ok(v) => {
            &&& post == v
            &&& r matches Ok(act)
            &&& act.opcode_fired == opcode_due
            &&& act.frame_fired == frame_due
            &&& act.sound_on == (v.sound_timer > 0)
            &&& act.sleep_micros == sleep_spec(v, ticks, opcode_due || frame_due)
        },
        Err(f) => r == Err::<UpdateActions, ExecFault>(f) && post == pre,
    }
}

/// The hex-digit font: 16 glyphs of 5 bytes each, resident at address 0.
pub open spec fn font_seq() -> Seq<u8> {
    seq![
        0xF0u8, 0x90, 0x90, 0x90, 0xF0,
        0x20, 0x60, 0x20, 0x20, 0x70,
        0xF0, 0x10, 0xF0, 0x80, 0xF0,
        0xF0, 0x10, 0xF0, 0x10, 0xF0,
        0x90, 0x90, 0xF0, 0x10, 0x10,
        0xF0, 0x80, 0xF0, 0x10, 0xF0,
        0xF0, 0x80, 0xF0, 0x90, 0xF0,
        0xF0, 0x10, 0x20, 0x40, 0x40,
        0xF0, 0x90, 0xF0, 0x90, 0xF0,
        0xF0, 0x90, 0xF0, 0x10, 0xF0,
        0xF0, 0x90, 0xF0, 0x90, 0x90,
        0xE0, 0x90, 0xE0, 0x90, 0xE0,
        0xF0, 0x80, 0x80, 0x80, 0xF0,
        0xE0, 0x90, 0x90, 0x90, 0xE0,
        0xF0, 0x80, 0xF0, 0x80, 0xF0,
        0xF0, 0x80, 0xF0, 0x80, 0x80,
    ]
}

/// The machine state right after loading: zeroed memory except the font at
/// address 0 and the program image at the program origin; cleared registers,
/// stack, timers and display; program counter at the origin; both scheduler
/// deadlines at the start time; opcode period of one million microseconds
/// divided by the clock speed.
pub open spec fn loaded_view(rom: Seq<u8>, clockspeed: u32, start_ticks: int) -> VmView {
    VmView {
        memory: Seq::new(
            MEM_SIZE as nat,
            |a: int|
                if 0 <= a < font_seq().len() {
                    font_seq()[a]
                } else if PROGRAM_START <= a < PROGRAM_START + rom.len() {
                    rom[a - PROGRAM_START]
                } else {
                    0
                },
        ),
        registers: Seq::new(REGISTER_COUNT as nat, |k: int| 0u8),
        stack: Seq::empty(),
        sp: 0,
        pc: PROGRAM_START as int,
        i: 0,
        delay_timer: 0,
        sound_timer: 0,
        display: blank_display(),
        display_dirty: true,
        keys: no_keys(),
        opcode_ticks: MAX_OPCODE_TICKS as int / clockspeed as int,
        next_opcode_time: start_ticks,
        next_update_time: start_ticks,
    }
}

} // verus!

verus! {

use vstd::arithmetic::div_mod::lemma_fundamental_div_mod;
use vstd::arithmetic::div_mod::lemma_fundamental_div_mod_converse;
use vstd::arithmetic::div_mod::lemma_mod_bound;

/// The sprite bit contributed by a row byte to column `px`, counting only
/// the leftmost `upto` columns of the row: the prefix a partly drawn row has
/// already XORed in.
pub open spec fn row_bit_upto(row_val: u8, vx: int, upto: int, px: int) -> u8 {
    if vx <= px < vx + upto {
        row_bit(row_val, vx, px)
    } else {
        0
    }
}

/// Collision against the first `upto` columns of one row.
pub open spec fn row_collision_upto(
    disp: Seq<u8>,
    row_val: u8,
    vx: int,
    upto: int,
    y: int,
) -> bool {
    exists|px: int|
        0 <= px < DISPLAY_WIDTH && disp[y * DISPLAY_WIDTH + px] == 1 && #[trigger] row_bit_upto(
            row_val,
            vx,
            upto,
            px,
        ) == 1
}

/// Change within the first `upto` columns of one row.
pub open spec fn row_any_upto(row_val: u8, vx: int, upto: int) -> bool {
    exists|px: int| 0 <= px < DISPLAY_WIDTH && #[trigger] row_bit_upto(row_val, vx, upto, px) == 1
}

/// A row prefix of zero columns has touched nothing.
pub proof fn lemma_row_upto_zero(disp: Seq<u8>, row_val: u8, vx: int, y: int)
    ensures
        !row_collision_upto(disp, row_val, vx, 0, y),
        !row_any_upto(row_val, vx, 0),
{
}

/// Extending a row prefix by one column adds exactly the contribution of
/// column `vx + b`.
pub proof fn lemma_row_upto_step(disp: Seq<u8>, row_val: u8, vx: int, b: int, y: int)
    requires
        0 <= b < 8,
    ensures
        row_collision_upto(disp, row_val, vx, b + 1, y) == (row_collision_upto(
            disp,
            row_val,
            vx,
            b,
            y,
        ) || (0 <= vx + b < DISPLAY_WIDTH && disp[y * DISPLAY_WIDTH + (vx + b)] == 1 && row_bit(
            row_val,
            vx,
            vx + b,
        ) == 1)),
        row_any_upto(row_val, vx, b + 1) == (row_any_upto(row_val, vx, b) || (0 <= vx + b
            < DISPLAY_WIDTH && row_bit(row_val, vx, vx + b) == 1)),
{
    let new_col = 0 <= vx + b < DISPLAY_WIDTH && disp[y * DISPLAY_WIDTH + (vx + b)] == 1
        && row_bit(row_val, vx, vx + b) == 1;
    let new_any = 0 <= vx + b < DISPLAY_WIDTH && row_bit(row_val, vx, vx + b) == 1;
    if row_collision_upto(disp, row_val, vx, b + 1, y) {
        let px = choose|px: int|
            0 <= px < DISPLAY_WIDTH && disp[y * DISPLAY_WIDTH + px] == 1
                && #[trigger] row_bit_upto(row_val, vx, b + 1, px) == 1;
        if px == vx + b {
            assert(new_col);
        } else {
            assert(row_bit_upto(row_val, vx, b, px) == 1);
            assert(row_collision_upto(disp, row_val, vx, b, y));
        }
    }
    if row_collision_upto(disp, row_val, vx, b, y) {
        let px = choose|px: int|
            0 <= px < DISPLAY_WIDTH && disp[y * DISPLAY_WIDTH + px] == 1
                && #[trigger] row_bit_upto(row_val, vx, b, px) == 1;
        assert(row_bit_upto(row_val, vx, b + 1, px) == 1);
        assert(row_collision_upto(disp, row_val, vx, b + 1, y));
    }
    if new_col {
        assert(row_bit_upto(row_val, vx, b + 1, vx + b) == 1);
        assert(row_collision_upto(disp, row_val, vx, b + 1, y));
    }
    if row_any_upto(row_val, vx, b + 1) {
        let px = choose|px: int|
            0 <= px < DISPLAY_WIDTH && #[trigger] row_bit_upto(row_val, vx, b + 1, px) == 1;
        if px == vx + b {
            assert(new_any);
        } else {
            assert(row_bit_upto(row_val, vx, b, px) == 1);
            assert(row_any_upto(row_val, vx, b));
        }
    }
    if row_any_upto(row_val, vx, b) {
        let px = choose|px: int|
            0 <= px < DISPLAY_WIDTH && #[trigger] row_bit_upto(row_val, vx, b, px) == 1;
        assert(row_bit_upto(row_val, vx, b + 1, px) == 1);
        assert(row_any_upto(row_val, vx, b + 1));
    }
    if new_any {
        assert(row_bit_upto(row_val, vx, b + 1, vx + b) == 1);
        assert(row_any_upto(row_val, vx, b + 1));
    }
}

/// A full eight-column prefix is the whole row.
pub proof fn lemma_row_upto_done(disp: Seq<u8>, row_val: u8, vx: int, y: int)
    ensures
        forall|px: int| #[trigger]
            row_bit_upto(row_val, vx, 8, px) == row_bit(row_val, vx, px),
        row_collision_upto(disp, row_val, vx, 8, y) == row_collision(disp, row_val, vx, y),
        row_any_upto(row_val, vx, 8) == row_any(row_val, vx),
{
    assert forall|px: int| #[trigger] row_bit_upto(row_val, vx, 8, px) == row_bit(row_val, vx, px) by {
        if !(vx <= px < vx + 8) {
            assert(row_bit(row_val, vx, px) == 0);
        }
    }
    if row_collision_upto(disp, row_val, vx, 8, y) {
        let px = choose|px: int|
            0 <= px < DISPLAY_WIDTH && disp[y * DISPLAY_WIDTH + px] == 1
                && #[trigger] row_bit_upto(row_val, vx, 8, px) == 1;
        assert(row_bit(row_val, vx, px) == 1);
        assert(row_collision(disp, row_val, vx, y));
    }
    if row_collision(disp, row_val, vx, y) {
        let px = choose|px: int|
            0 <= px < DISPLAY_WIDTH && disp[y * DISPLAY_WIDTH + px] == 1 && #[trigger] row_bit(
                row_val,
                vx,
                px,
            ) == 1;
        assert(row_bit_upto(row_val, vx, 8, px) == 1);
        assert(row_collision_upto(disp, row_val, vx, 8, y));
    }
    if row_any_upto(row_val, vx, 8) {
        let px = choose|px: int|
            0 <= px < DISPLAY_WIDTH && #[trigger] row_bit_upto(row_val, vx, 8, px) == 1;
        assert(row_bit(row_val, vx, px) == 1);
        assert(row_any(row_val, vx));
    }
    if row_any(row_val, vx) {
        let px = choose|px: int|
            0 <= px < DISPLAY_WIDTH && #[trigger] row_bit(row_val, vx, px) == 1;
        assert(row_bit_upto(row_val, vx, 8, px) == 1);
        assert(row_any_upto(row_val, vx, 8));
    }
}

/// A sprite of zero rows has touched nothing.
pub proof fn lemma_sprite_zero(disp: Seq<u8>, mem: Seq<u8>, i: int, vx: int, vy: int)
    ensures
        !draw_collision(disp, mem, i, vx, vy, 0),
        !draw_any_bit(mem, i, vx, vy, 0),
{
}

/// Extending a drawn sprite by one row adds exactly that row's collision and
/// change, because successive rows touch disjoint display cells.
pub proof fn lemma_sprite_step(disp: Seq<u8>, mem: Seq<u8>, i: int, vx: int, vy: int, r: int)
    requires
        0 <= r,
        0 <= vy,
        vy + r < DISPLAY_HEIGHT,
    ensures
        forall|px: int, py: int| #[trigger]
            sprite_bit_at(mem, i, vx, vy, r + 1, px, py) == (if py == vy + r {
                row_bit(mem[i + r], vx, px)
            } else {
                sprite_bit_at(mem, i, vx, vy, r, px, py)
            }),
        draw_collision(disp, mem, i, vx, vy, r + 1) == (draw_collision(disp, mem, i, vx, vy, r)
            || row_collision(disp, mem[i + r], vx, vy + r)),
        draw_any_bit(mem, i, vx, vy, r + 1) == (draw_any_bit(mem, i, vx, vy, r) || row_any(
            mem[i + r],
            vx,
        )),
{
    if draw_collision(disp, mem, i, vx, vy, r + 1) {
        let (px, py) = choose|px: int, py: int|
            0 <= px < DISPLAY_WIDTH && 0 <= py < DISPLAY_HEIGHT && disp[py * DISPLAY_WIDTH + px]
                == 1 && #[trigger] sprite_bit_at(mem, i, vx, vy, r + 1, px, py) == 1;
        if py == vy + r {
            assert(row_bit(mem[i + r], vx, px) == 1);
            assert(row_collision(disp, mem[i + r], vx, vy + r));
        } else {
            assert(sprite_bit_at(mem, i, vx, vy, r, px, py) == 1);
            assert(draw_collision(disp, mem, i, vx, vy, r));
        }
    }
    if draw_collision(disp, mem, i, vx, vy, r) {
        let (px, py) = choose|px: int, py: int|
            0 <= px < DISPLAY_WIDTH && 0 <= py < DISPLAY_HEIGHT && disp[py * DISPLAY_WIDTH + px]
                == 1 && #[trigger] sprite_bit_at(mem, i, vx, vy, r, px, py) == 1;
        assert(py != vy + r);
        assert(sprite_bit_at(mem, i, vx, vy, r + 1, px, py) == 1);
        assert(draw_collision(disp, mem, i, vx, vy, r + 1));
    }
    if row_collision(disp, mem[i + r], vx, vy + r) {
        let px = choose|px: int|
            0 <= px < DISPLAY_WIDTH && disp[(vy + r) * DISPLAY_WIDTH + px] == 1 && #[trigger]
            row_bit(mem[i + r], vx, px) == 1;
        assert(sprite_bit_at(mem, i, vx, vy, r + 1, px, vy + r) == 1);
        assert(draw_collision(disp, mem, i, vx, vy, r + 1));
    }
    if draw_any_bit(mem, i, vx, vy, r + 1) {
        let (px, py) = choose|px: int, py: int|
            0 <= px < DISPLAY_WIDTH && 0 <= py < DISPLAY_HEIGHT && #[trigger] sprite_bit_at(
                mem,
                i,
                vx,
                vy,
                r + 1,
                px,
                py,
            ) == 1;
        if py == vy + r {
            assert(row_bit(mem[i + r], vx, px) == 1);
            assert(row_any(mem[i + r], vx));
        } else {
            assert(sprite_bit_at(mem, i, vx, vy, r, px, py) == 1);
            assert(draw_any_bit(mem, i, vx, vy, r));
        }
    }
    if draw_any_bit(mem, i, vx, vy, r) {
        let (px, py) = choose|px: int, py: int|
            0 <= px < DISPLAY_WIDTH && 0 <= py < DISPLAY_HEIGHT && #[trigger] sprite_bit_at(
                mem,
                i,
                vx,
                vy,
                r,
                px,
                py,
            ) == 1;
        assert(py != vy + r);
        assert(sprite_bit_at(mem, i, vx, vy, r + 1, px, py) == 1);
        assert(draw_any_bit(mem, i, vx, vy, r + 1));
    }
    if row_any(mem[i + r], vx) {
        let px = choose|px: int|
            0 <= px < DISPLAY_WIDTH && #[trigger] row_bit(mem[i + r], vx, px) == 1;
        assert(sprite_bit_at(mem, i, vx, vy, r + 1, px, vy + r) == 1);
        assert(draw_any_bit(mem, i, vx, vy, r + 1));
    }
}

/// Collision within one row depends only on that row's display cells.
pub proof fn lemma_row_collision_same(
    d1: Seq<u8>,
    d2: Seq<u8>,
    row_val: u8,
    vx: int,
    y: int,
)
    requires
        0 <= y < DISPLAY_HEIGHT,
        forall|a: int|
            0 <= a < DISPLAY_SIZE && a / (DISPLAY_WIDTH as int) == y ==> #[trigger] d1[a] == d2[a],
    ensures
        row_collision(d1, row_val, vx, y) == row_collision(d2, row_val, vx, y),
{
    if row_collision(d1, row_val, vx, y) {
        let px = choose|px: int|
            0 <= px < DISPLAY_WIDTH && d1[y * DISPLAY_WIDTH + px] == 1 && #[trigger] row_bit(
                row_val,
                vx,
                px,
            ) == 1;
        lemma_addr(y, px);
        assert(d2[y * DISPLAY_WIDTH + px] == 1);
        assert(row_collision(d2, row_val, vx, y));
    }
    if row_collision(d2, row_val, vx, y) {
        let px = choose|px: int|
            0 <= px < DISPLAY_WIDTH && d2[y * DISPLAY_WIDTH + px] == 1 && #[trigger] row_bit(
                row_val,
                vx,
                px,
            ) == 1;
        lemma_addr(y, px);
        assert(d1[y * DISPLAY_WIDTH + px] == 1);
        assert(row_collision(d1, row_val, vx, y));
    }
}

/// The row-major cell address of a pixel, with its quotient and remainder.
pub proof fn lemma_addr(y: int, px: int)
    requires
        0 <= px < DISPLAY_WIDTH,
        0 <= y < DISPLAY_HEIGHT,
    ensures
        0 <= y * DISPLAY_WIDTH + px < DISPLAY_SIZE,
        (y * DISPLAY_WIDTH + px) / (DISPLAY_WIDTH as int) == y,
        (y * DISPLAY_WIDTH + px) % (DISPLAY_WIDTH as int) == px,
{
    lemma_fundamental_div_mod_converse(y * DISPLAY_WIDTH + px, DISPLAY_WIDTH as int, y, px);
}

/// Every cell address decomposes into its pixel coordinates.
pub proof fn lemma_addr_decompose(a: int)
    requires
        0 <= a < DISPLAY_SIZE,
    ensures
        0 <= a % (DISPLAY_WIDTH as int) < DISPLAY_WIDTH,
        0 <= a / (DISPLAY_WIDTH as int) < DISPLAY_HEIGHT,
        a == a / (DISPLAY_WIDTH as int) * DISPLAY_WIDTH + a % (DISPLAY_WIDTH as int),
{
    lemma_fundamental_div_mod(a, DISPLAY_WIDTH as int);
    lemma_mod_bound(a, DISPLAY_WIDTH as int);
}

} // verus!

verus! {

/// A sprite row contributes single bits.
pub proof fn lemma_row_bit_le1(row_val: u8, vx: int, px: int)
    ensures
        row_bit(row_val, vx, px) <= 1,
{
    if vx <= px < vx + 8 {
        crate::bits::lemma_shift_bit(row_val, (7 - (px - vx)) as u8);
    }
}

/// A sprite contributes single bits.
pub proof fn lemma_sprite_bit_le1(mem: Seq<u8>, i: int, vx: int, vy: int, rows: int, a: int)
    ensures
        sprite_bit(mem, i, vx, vy, rows, a) <= 1,
{
    let px = a % (DISPLAY_WIDTH as int);
    let py = a / (DISPLAY_WIDTH as int);
    if vy <= py < vy + rows {
        lemma_row_bit_le1(mem[i + (py - vy)], vx, px);
    }
}

} // verus!
