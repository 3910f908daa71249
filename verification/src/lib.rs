//! A verified CHIP-8 virtual machine core.
//!
//! The machine is modelled exactly: 4096 bytes of memory holding a hex-digit
//! font and the loaded program, sixteen 8-bit registers (register 0xF doubles
//! as the carry/borrow/collision flag), a 16-bit address register, a bounded
//! call stack, two saturating 60 Hz countdown timers, a 64x32 one-bit display
//! with XOR sprite drawing, and a dual-rate scheduler that paces opcode
//! execution against the fixed frame tick.
//!
//! Every state transition is specified against a mathematical view of the
//! machine ([`semantics::VmView`]) and proved. The only trusted item is the
//! wrapper around the random-byte generator used by the masked-random opcode.

use vstd::prelude::*;

pub mod bits;
pub mod interpreter;
pub mod keyboard;
pub mod laws;
pub mod opcode;
pub mod semantics;
pub mod video;

verus! {

/// Bytes of machine memory.
pub const MEM_SIZE: usize = 4096;

/// Number of general-purpose registers.
pub const REGISTER_COUNT: usize = 16;

/// Memory address at which a loaded program starts.
pub const PROGRAM_START: usize = 0x200;

/// Capacity of the call stack.
pub const STACK_SLOTS: usize = 64;

/// Memory address of the first font glyph.
pub const FONT_START: usize = 0;

/// Bytes per font glyph.
pub const FONT_CHAR_SIZE: usize = 5;

/// Number of font glyphs (hex digits 0 through F).
pub const FONT_CHAR_COUNT: usize = 16;

/// Display width in pixels.
pub const DISPLAY_WIDTH: usize = 64;

/// Display height in pixels.
pub const DISPLAY_HEIGHT: usize = 32;

/// Total number of display pixels.
pub const DISPLAY_SIZE: usize = 64 * 32;

/// Number of keys on the hex keypad.
pub const KEY_COUNT: usize = 16;

/// Microseconds between frame ticks (timer decrement, display present,
/// audio update), approximately 60 Hz.
pub const UPDATE_TICKS: u128 = 16667;

/// Upper bound on the opcode period in microseconds (one second, reached at
/// a clock speed of 1 Hz).
pub const MAX_OPCODE_TICKS: u128 = 1000000;

} // verus!
