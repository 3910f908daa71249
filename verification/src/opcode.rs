//! Decoding a 16-bit instruction word into one of the machine's operations,
//! and the error taxonomy: load errors and fatal execution faults.

use vstd::prelude::*;

verus! {

/// A fatal execution fault. Any fault is terminal for the machine instance;
/// each variant carries the address of the offending instruction.
#[derive(Clone, Copy, Debug, PartialEq, Eq, Structural)]
pub enum ExecFault {
    /// The fetched instruction word matches no operation.
    UnknownOpcode { opcode: u16, pc: usize },
    /// The instruction calls a platform-native routine, which cannot be
    /// emulated; a documented, permanent limitation.
    NotImplemented { addr: usize, pc: usize },
    /// A subroutine call arrived with the call stack already full.
    StackOverflow { pc: usize },
    /// An instruction would read or write past the end of memory.
    MemoryOutOfRange { addr: usize, pc: usize },
    /// A key-test instruction named a key index outside the 16-key pad.
    KeyOutOfRange { key: u8, pc: usize },
}

/// A failure to load a program image.
#[derive(Clone, Copy, Debug, PartialEq, Eq, Structural)]
pub enum LoadError {
    /// The image does not fit between the program origin and the end of
    /// memory.
    RomTooLarge,
}

/// A decoded instruction. Field meanings follow the instruction word layout:
/// `x` and `y` are register indices (bits 8-11 and 4-7), `n` is the low
/// nibble, `nn` the low byte, and `nnn` the low twelve bits (an address).
#[derive(Clone, Copy, Debug, PartialEq, Eq, Structural)]
pub enum Instr {
    /// 00E0: set every display cell to 0 and mark the display dirty.
    ClearScreen,
    /// 00EE: pop the call stack into the program counter; no-op if empty.
    Return,
    /// 0NNN: call a platform-native routine (unsupported).
    NativeCall { nnn: usize },
    /// 1NNN: unconditional jump.
    Jump { nnn: usize },
    /// 2NNN: push the program counter and jump to the subroutine.
    Call { nnn: usize },
    /// 3XNN: skip the next instruction if register x equals nn.
    SkipEqImm { x: usize, nn: u8 },
    /// 4XNN: skip the next instruction if register x differs from nn.
    SkipNeImm { x: usize, nn: u8 },
    /// 5XY0: skip the next instruction if registers x and y are equal.
    SkipEqReg { x: usize, y: usize },
    /// 6XNN: register x := nn.
    LoadImm { x: usize, nn: u8 },
    /// 7XNN: register x := register x + nn, wrapping, flag untouched.
    AddImm { x: usize, nn: u8 },
    /// 8XY0: register x := register y.
    Move { x: usize, y: usize },
    /// 8XY1: register x := register x | register y.
    Or { x: usize, y: usize },
    /// 8XY2: register x := register x & register y.
    And { x: usize, y: usize },
    /// 8XY3: register x := register x ^ register y.
    Xor { x: usize, y: usize },
    /// 8XY4: register x := register x + register y; flag := carry.
    AddCarry { x: usize, y: usize },
    /// 8XY5: register x := register x - register y; flag := no-borrow.
    SubBorrow { x: usize, y: usize },
    /// 8XY6: flag := low bit of register x; register x := register x >> 1.
    ShiftRight { x: usize },
    /// 8XY7: register x := register y - register x; flag := no-borrow.
    SubBorrowRev { x: usize, y: usize },
    /// 8XYE: flag := high bit of register x; register x := register x << 1.
    ShiftLeft { x: usize },
    /// 9XY0: skip the next instruction if registers x and y differ.
    SkipNeReg { x: usize, y: usize },
    /// ANNN: address register I := nnn.
    SetIndex { nnn: usize },
    /// BNNN: jump to register 0 + nnn.
    JumpV0 { nnn: usize },
    /// CXNN: register x := random byte & nn.
    RandomMask { x: usize, nn: u8 },
    /// DXYN: draw the n-row sprite at memory I at coordinates from
    /// registers x and y; flag := collision.
    Draw { x: usize, y: usize, n: u8 },
    /// EX9E: skip the next instruction if the key in register x is down.
    SkipKey { x: usize },
    /// EXA1: skip the next instruction if the key in register x is up.
    SkipNoKey { x: usize },
    /// FX07: register x := delay timer.
    ReadDelay { x: usize },
    /// FX0A: block until a key is down, then register x := its index.
    WaitKey { x: usize },
    /// FX15: delay timer := register x.
    SetDelay { x: usize },
    /// FX18: sound timer := register x.
    SetSound { x: usize },
    /// FX1E: I := I + register x, wrapping at 16 bits, flag untouched.
    AddIndex { x: usize },
    /// FX29: I := address of the font glyph for the digit in register x.
    FontAddr { x: usize },
    /// FX33: write the decimal digits of register x at I, I+1, I+2.
    StoreBcd { x: usize },
    /// FX55: write registers 0..=x to memory starting at I; I unchanged.
    RegDump { x: usize },
    /// FX65: read memory starting at I into registers 0..=x; I unchanged.
    RegLoad { x: usize },
    /// Any other instruction word: a fatal unknown-opcode fault.
    Unknown { op: u16 },
}

/// Classify an instruction word by its nibble fields.
pub open spec fn decode(op: u16) -> Instr {
    let a = op >> 12;
    let x = ((op >> 8) & 0xF) as usize;
    let y = ((op >> 4) & 0xF) as usize;
    let n = (op & 0xF) as u8;
    let nn = (op & 0xFF) as u8;
    let nnn = (op & 0xFFF) as usize;
    if a == 0x0 {
        if nnn == 0x0E0 {
            Instr::ClearScreen
        } else if nnn == 0x0EE {
            Instr::Return
        } else {
            Instr::NativeCall { nnn }
        }
    } else if a == 0x1 {
        Instr::Jump { nnn }
    } else if a == 0x2 {
        Instr::Call { nnn }
    } else if a == 0x3 {
        Instr::SkipEqImm { x, nn }
    } else if a == 0x4 {
        Instr::SkipNeImm { x, nn }
    } else if a == 0x5 {
        Instr::SkipEqReg { x, y }
    } else if a == 0x6 {
        Instr::LoadImm { x, nn }
    } else if a == 0x7 {
        Instr::AddImm { x, nn }
    } else if a == 0x8 {
        if n == 0x0 {
            Instr::Move { x, y }
        } else if n == 0x1 {
            Instr::Or { x, y }
        } else if n == 0x2 {
            Instr::And { x, y }
        } else if n == 0x3 {
            Instr::Xor { x, y }
        } else if n == 0x4 {
            Instr::AddCarry { x, y }
        } else if n == 0x5 {
            Instr::SubBorrow { x, y }
        } else if n == 0x6 {
            Instr::ShiftRight { x }
        } else if n == 0x7 {
            Instr::SubBorrowRev { x, y }
        } else if n == 0xE {
            Instr::ShiftLeft { x }
        } else {
            Instr::Unknown { op }
        }
    } else if a == 0x9 {
        Instr::SkipNeReg { x, y }
    } else if a == 0xA {
        Instr::SetIndex { nnn }
    } else if a == 0xB {
        Instr::JumpV0 { nnn }
    } else if a == 0xC {
        Instr::RandomMask { x, nn }
    } else if a == 0xD {
        Instr::Draw { x, y, n }
    } else if a == 0xE {
        if nn == 0x9E {
            Instr::SkipKey { x }
        } else if nn == 0xA1 {
            Instr::SkipNoKey { x }
        } else {
            Instr::Unknown { op }
        }
    } else {
        if nn == 0x07 {
            Instr::ReadDelay { x }
        } else if nn == 0x0A {
            Instr::WaitKey { x }
        } else if nn == 0x15 {
            Instr::SetDelay { x }
        } else if nn == 0x18 {
            Instr::SetSound { x }
        } else if nn == 0x1E {
            Instr::AddIndex { x }
        } else if nn == 0x29 {
            Instr::FontAddr { x }
        } else if nn == 0x33 {
            Instr::StoreBcd { x }
        } else if nn == 0x55 {
            Instr::RegDump { x }
        } else if nn == 0x65 {
            Instr::RegLoad { x }
        } else {
            Instr::Unknown { op }
        }
    }
}

/// Register indices decoded from an instruction word lie below 16 and
/// addresses below 4096.
pub open spec fn instr_wf(instr: Instr) -> bool {
    match instr {
        Instr::ClearScreen => true,
        Instr::Return => true,
        Instr::NativeCall { nnn } => nnn < 4096,
        Instr::Jump { nnn } => nnn < 4096,
        Instr::Call { nnn } => nnn < 4096,
        Instr::SkipEqImm { x, nn } => x < 16,
        Instr::SkipNeImm { x, nn } => x < 16,
        Instr::SkipEqReg { x, y } => x < 16 && y < 16,
        Instr::LoadImm { x, nn } => x < 16,
        Instr::AddImm { x, nn } => x < 16,
        Instr::Move { x, y } => x < 16 && y < 16,
        Instr::Or { x, y } => x < 16 && y < 16,
        Instr::And { x, y } => x < 16 && y < 16,
        Instr::Xor { x, y } => x < 16 && y < 16,
        Instr::AddCarry { x, y } => x < 16 && y < 16,
        Instr::SubBorrow { x, y } => x < 16 && y < 16,
        Instr::ShiftRight { x } => x < 16,
        Instr::SubBorrowRev { x, y } => x < 16 && y < 16,
        Instr::ShiftLeft { x } => x < 16,
        Instr::SkipNeReg { x, y } => x < 16 && y < 16,
        Instr::SetIndex { nnn } => nnn < 4096,
        Instr::JumpV0 { nnn } => nnn < 4096,
        Instr::RandomMask { x, nn } => x < 16,
        Instr::Draw { x, y, n } => x < 16 && y < 16 && n < 16,
        Instr::SkipKey { x } => x < 16,
        Instr::SkipNoKey { x } => x < 16,
        Instr::ReadDelay { x } => x < 16,
        Instr::WaitKey { x } => x < 16,
        Instr::SetDelay { x } => x < 16,
        Instr::SetSound { x } => x < 16,
        Instr::AddIndex { x } => x < 16,
        Instr::FontAddr { x } => x < 16,
        Instr::StoreBcd { x } => x < 16,
        Instr::RegDump { x } => x < 16,
        Instr::RegLoad { x } => x < 16,
        Instr::Unknown { op } => true,
    }
}

/// The nibble fields of any instruction word are in range.
pub proof fn lemma_decode_wf(op: u16)
    ensures
        instr_wf(decode(op)),
{
    assert((op >> 8) & 0xF < 16 && (op >> 4) & 0xF < 16 && (op & 0xF) < 16 && (op & 0xFFF)
        < 4096) by (bit_vector);
}

/// Classify an instruction word, exactly as [`decode`] does.
pub fn decode_op(op: u16) -> (r: Instr)
    ensures
        r == decode(op),
        instr_wf(r),
{
    proof {
        lemma_decode_wf(op);
    }
    let a = op >> 12;
    let x = ((op >> 8) & 0xF) as usize;
    let y = ((op >> 4) & 0xF) as usize;
    let n = (op & 0xF) as u8;
    let nn = (op & 0xFF) as u8;
    let nnn = (op & 0xFFF) as usize;
    if a == 0x0 {
        if nnn == 0x0E0 {
            Instr::ClearScreen
        } else if nnn == 0x0EE {
            Instr::Return
        } else {
            Instr::NativeCall { nnn }
        }
    } else if a == 0x1 {
        Instr::Jump { nnn }
    } else if a == 0x2 {
        Instr::Call { nnn }
    } else if a == 0x3 {
        Instr::SkipEqImm { x, nn }
    } else if a == 0x4 {
        Instr::SkipNeImm { x, nn }
    } else if a == 0x5 {
        Instr::SkipEqReg { x, y }
    } else if a == 0x6 {
        Instr::LoadImm { x, nn }
    } else if a == 0x7 {
        Instr::AddImm { x, nn }
    } else if a == 0x8 {
        if n == 0x0 {
            Instr::Move { x, y }
        } else if n == 0x1 {
            Instr::Or { x, y }
        } else if n == 0x2 {
            Instr::And { x, y }
        } else if n == 0x3 {
            Instr::Xor { x, y }
        } else if n == 0x4 {
            Instr::AddCarry { x, y }
        } else if n == 0x5 {
            Instr::SubBorrow { x, y }
        } else if n == 0x6 {
            Instr::ShiftRight { x }
        } else if n == 0x7 {
            Instr::SubBorrowRev { x, y }
        } else if n == 0xE {
            Instr::ShiftLeft { x }
        } else {
            Instr::Unknown { op }
        }
    } else if a == 0x9 {
        Instr::SkipNeReg { x, y }
    } else if a == 0xA {
        Instr::SetIndex { nnn }
    } else if a == 0xB {
        Instr::JumpV0 { nnn }
    } else if a == 0xC {
        Instr::RandomMask { x, nn }
    } else if a == 0xD {
        Instr::Draw { x, y, n }
    } else if a == 0xE {
        if nn == 0x9E {
            Instr::SkipKey { x }
        } else if nn == 0xA1 {
            Instr::SkipNoKey { x }
        } else {
            Instr::Unknown { op }
        }
    } else {
        if nn == 0x07 {
            Instr::ReadDelay { x }
        } else if nn == 0x0A {
            Instr::WaitKey { x }
        } else if nn == 0x15 {
            Instr::SetDelay { x }
        } else if nn == 0x18 {
            Instr::SetSound { x }
        } else if nn == 0x1E {
            Instr::AddIndex { x }
        } else if nn == 0x29 {
            Instr::FontAddr { x }
        } else if nn == 0x33 {
            Instr::StoreBcd { x }
        } else if nn == 0x55 {
            Instr::RegDump { x }
        } else if nn == 0x65 {
            Instr::RegLoad { x }
        } else {
            Instr::Unknown { op }
        }
    }
}

} // verus!
