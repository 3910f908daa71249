//! Small facts about single-bit arithmetic on bytes, used by the display
//! buffer (XOR blitting) and the shift opcodes.

use vstd::prelude::*;

verus! {

/// Masking a byte with 1 yields a single bit.
pub proof fn lemma_and1(v: u8)
    by (bit_vector)
    ensures
        v & 1 <= 1,
{
}

/// XOR on single bits stays a single bit, is its own inverse, and flips a
/// pixel exactly when the incoming bit is set.
pub proof fn lemma_xor_bit(a: u8, b: u8)
    by (bit_vector)
    requires
        a <= 1,
        b <= 1,
    ensures
        a ^ b <= 1,
        (a ^ b) ^ b == a,
        b == 0 ==> a ^ b == a,
        a ^ b == 1 <==> a != b,
{
}

/// A bit extracted from a byte by shift-and-mask is a single bit.
pub proof fn lemma_shift_bit(v: u8, s: u8)
    by (bit_vector)
    requires
        s < 8,
    ensures
        (v >> s) & 1 <= 1,
{
}

/// Shifting an unsigned byte right by one halves it, and its low bit is the
/// remainder by two.
pub proof fn lemma_shr1(v: u8)
    by (bit_vector)
    ensures
        v >> 1 == v / 2,
        v & 1 == v % 2,
{
}

/// The top bit of an unsigned byte is its quotient by 128.
pub proof fn lemma_shl1(v: u8)
    by (bit_vector)
    ensures
        (v >> 7) & 1 == v / 128,
        v / 128 <= 1,
{
}

} // verus!
