//! End-to-end tests of the virtual CPU: programs are loaded as byte images
//! and stepped one instruction at a time with a fixed random byte.

use chip8::interpreter::Interpreter;
use chip8::opcode::ExecFault;
use chip8::opcode::LoadError;

fn load_rom(bytes: &[u8]) -> Interpreter {
    Interpreter::load(&bytes.to_vec(), 400, 0).unwrap()
}

fn step(interp: &mut Interpreter) {
    interp.process_opcode_with(0).unwrap();
}

#[test]
fn load_writes_font_program_and_initial_state() {
    let interp = load_rom(&[0x12, 0x00]);
    assert_eq!(interp.get_memory_byte(0), 0xF0);
    assert_eq!(interp.get_memory_byte(4), 0xF0);
    assert_eq!(interp.get_memory_byte(79), 0x80);
    assert_eq!(interp.get_memory_byte(80), 0x00);
    assert_eq!(interp.get_memory_byte(0x200), 0x12);
    assert_eq!(interp.get_memory_byte(0x201), 0x00);
    assert_eq!(interp.get_memory_byte(0x202), 0x00);
    assert_eq!(interp.get_pc(), 0x200);
    assert_eq!(interp.get_i(), 0);
    assert_eq!(interp.get_sp(), 0);
    assert_eq!(interp.get_delay_timer(), 0);
    assert_eq!(interp.get_sound_timer(), 0);
    for r in 0..16 {
        assert_eq!(interp.get_register(r), 0);
    }
}

#[test]
fn load_rejects_oversized_rom() {
    let big = vec![0u8; 3585];
    match Interpreter::load(&big, 400, 0) {
        Err(LoadError::RomTooLarge) => {}
        _ => panic!("an image larger than the program region must be rejected"),
    }
    let exact = vec![0u8; 3584];
    assert!(Interpreter::load(&exact, 400, 0).is_ok());
}

#[test]
fn load_add_and_empty_stack_return() {
    // Load 5 into register 0, add 3, then return with an empty stack: the
    // return is a silent no-op, not a fault.
    let mut interp = load_rom(&[0x60, 0x05, 0x70, 0x03, 0x00, 0xEE]);
    step(&mut interp);
    assert_eq!(interp.get_register(0), 5);
    step(&mut interp);
    assert_eq!(interp.get_register(0), 8);
    step(&mut interp);
    assert_eq!(interp.get_register(0), 8);
    assert_eq!(interp.get_pc(), 0x206);
    assert_eq!(interp.get_sp(), 0);
}

#[test]
fn unknown_opcode_faults() {
    let mut interp = load_rom(&[0xFF, 0xFF]);
    match interp.process_opcode_with(0) {
        Err(ExecFault::UnknownOpcode { opcode, pc }) => {
            assert_eq!(opcode, 0xFFFF);
            assert_eq!(pc, 0x200);
        }
        _ => panic!("opcode FFFF must raise an unknown-opcode fault"),
    }
    // The fault leaves the machine untouched.
    assert_eq!(interp.get_pc(), 0x200);
}

#[test]
fn native_call_is_not_implemented() {
    let mut interp = load_rom(&[0x02, 0x34]);
    match interp.process_opcode_with(0) {
        Err(ExecFault::NotImplemented { addr, pc }) => {
            assert_eq!(addr, 0x234);
            assert_eq!(pc, 0x200);
        }
        _ => panic!("opcode 0NNN must raise a not-implemented fault"),
    }
}

#[test]
fn register_dump_then_load_restores() {
    // I := 0x300; v0 := 11, v1 := 22, v2 := 33; dump v0..=v2; overwrite the
    // three registers; load v0..=v2 back. I stays 0x300 throughout.
    let mut interp = load_rom(&[
        0xA3, 0x00, // I := 0x300
        0x60, 11, 0x61, 22, 0x62, 33, // fill v0..v2
        0xF2, 0x55, // dump
        0x60, 0, 0x61, 0, 0x62, 0, // clobber
        0xF2, 0x65, // load
    ]);
    for _ in 0..5 {
        step(&mut interp);
    }
    assert_eq!(interp.get_i(), 0x300);
    assert_eq!(interp.get_memory_byte(0x300), 11);
    assert_eq!(interp.get_memory_byte(0x301), 22);
    assert_eq!(interp.get_memory_byte(0x302), 33);
    assert_eq!(interp.get_memory_byte(0x303), 0);
    for _ in 0..3 {
        step(&mut interp);
    }
    assert_eq!(interp.get_register(0), 0);
    assert_eq!(interp.get_register(1), 0);
    assert_eq!(interp.get_register(2), 0);
    step(&mut interp);
    assert_eq!(interp.get_register(0), 11);
    assert_eq!(interp.get_register(1), 22);
    assert_eq!(interp.get_register(2), 33);
    assert_eq!(interp.get_register(3), 0);
    assert_eq!(interp.get_i(), 0x300);
}

#[test]
fn add_with_carry_sets_flag_on_overflow() {
    // v0 := 200, v1 := 100; v0 += v1: 300 mod 256 = 44, carry 1.
    let mut interp = load_rom(&[0x60, 200, 0x61, 100, 0x80, 0x14]);
    for _ in 0..3 {
        step(&mut interp);
    }
    assert_eq!(interp.get_register(0), 44);
    assert_eq!(interp.get_register(15), 1);
}

#[test]
fn add_with_carry_clears_flag_without_overflow() {
    let mut interp = load_rom(&[0x6F, 7, 0x60, 200, 0x61, 55, 0x80, 0x14]);
    for _ in 0..4 {
        step(&mut interp);
    }
    assert_eq!(interp.get_register(0), 255);
    assert_eq!(interp.get_register(15), 0);
}

#[test]
fn subtract_with_borrow_flags() {
    // 100 - 30: no borrow, flag 1.
    let mut interp = load_rom(&[0x60, 100, 0x61, 30, 0x80, 0x15]);
    for _ in 0..3 {
        step(&mut interp);
    }
    assert_eq!(interp.get_register(0), 70);
    assert_eq!(interp.get_register(15), 1);
    // 30 - 100: borrow, flag 0, result wraps to 186.
    let mut interp2 = load_rom(&[0x60, 30, 0x61, 100, 0x80, 0x15]);
    for _ in 0..3 {
        step(&mut interp2);
    }
    assert_eq!(interp2.get_register(0), 186);
    assert_eq!(interp2.get_register(15), 0);
}

#[test]
fn subtract_reversed_flags() {
    // v0 := v1 - v0 with v1 >= v0: flag 1.
    let mut interp = load_rom(&[0x60, 30, 0x61, 100, 0x80, 0x17]);
    for _ in 0..3 {
        step(&mut interp);
    }
    assert_eq!(interp.get_register(0), 70);
    assert_eq!(interp.get_register(15), 1);
}

#[test]
fn shift_right_keeps_low_bit_in_flag() {
    let mut interp = load_rom(&[0x60, 0x81, 0x80, 0x06]);
    for _ in 0..2 {
        step(&mut interp);
    }
    assert_eq!(interp.get_register(0), 0x40);
    assert_eq!(interp.get_register(15), 1);
}

#[test]
fn shift_left_keeps_high_bit_in_flag() {
    let mut interp = load_rom(&[0x60, 0x81, 0x80, 0x0E]);
    for _ in 0..2 {
        step(&mut interp);
    }
    assert_eq!(interp.get_register(0), 0x02);
    assert_eq!(interp.get_register(15), 1);
}

#[test]
fn bitwise_and_or_xor_and_move() {
    let mut interp = load_rom(&[
        0x60, 0b1100, 0x61, 0b1010, // v0, v1
        0x80, 0x11, // v0 |= v1 -> 0b1110
        0x62, 0b1100, 0x82, 0x12, // v2 &= v1 -> 0b1000
        0x63, 0b1100, 0x83, 0x13, // v3 ^= v1 -> 0b0110
        0x84, 0x10, // v4 := v1
    ]);
    for _ in 0..8 {
        step(&mut interp);
    }
    assert_eq!(interp.get_register(0), 0b1110);
    assert_eq!(interp.get_register(2), 0b1000);
    assert_eq!(interp.get_register(3), 0b0110);
    assert_eq!(interp.get_register(4), 0b1010);
}

#[test]
fn skip_instructions() {
    // 3XNN skips when equal: v0 == 5, so the jump below is skipped.
    let mut interp = load_rom(&[0x60, 0x05, 0x30, 0x05]);
    step(&mut interp);
    step(&mut interp);
    assert_eq!(interp.get_pc(), 0x206);
    // 4XNN skips when unequal; here equal, so no skip.
    let mut interp2 = load_rom(&[0x60, 0x05, 0x40, 0x05]);
    step(&mut interp2);
    step(&mut interp2);
    assert_eq!(interp2.get_pc(), 0x204);
    // 5XY0 skips when registers are equal.
    let mut interp3 = load_rom(&[0x60, 0x05, 0x61, 0x05, 0x50, 0x10]);
    for _ in 0..3 {
        step(&mut interp3);
    }
    assert_eq!(interp3.get_pc(), 0x208);
    // 9XY0 skips when registers differ; here equal, so no skip.
    let mut interp4 = load_rom(&[0x60, 0x05, 0x61, 0x05, 0x90, 0x10]);
    for _ in 0..3 {
        step(&mut interp4);
    }
    assert_eq!(interp4.get_pc(), 0x206);
}

#[test]
fn jumps() {
    let mut interp = load_rom(&[0x12, 0x40]);
    step(&mut interp);
    assert_eq!(interp.get_pc(), 0x240);
    // BNNN jumps to v0 + nnn.
    let mut interp2 = load_rom(&[0x60, 0x04, 0xB2, 0x08]);
    step(&mut interp2);
    step(&mut interp2);
    assert_eq!(interp2.get_pc(), 0x20C);
}

#[test]
fn call_and_return_round_trip() {
    // Call the subroutine at 0x204, which returns at once.
    let mut interp = load_rom(&[0x22, 0x04, 0x00, 0x00, 0x00, 0xEE]);
    step(&mut interp);
    assert_eq!(interp.get_pc(), 0x204);
    assert_eq!(interp.get_sp(), 1);
    step(&mut interp);
    assert_eq!(interp.get_pc(), 0x202);
    assert_eq!(interp.get_sp(), 0);
}

#[test]
fn call_stack_overflows_at_capacity() {
    // A subroutine that calls itself: every step pushes one return address.
    let mut interp = load_rom(&[0x22, 0x00]);
    for k in 0..63 {
        assert!(interp.process_opcode_with(0).is_ok(), "push {k} should fit");
    }
    assert_eq!(interp.get_sp(), 63);
    match interp.process_opcode_with(0) {
        Err(ExecFault::StackOverflow { pc }) => assert_eq!(pc, 0x200),
        _ => panic!("the sixty-fourth call must overflow the stack"),
    }
    assert_eq!(interp.get_sp(), 63);
}

#[test]
fn masked_random_applies_mask() {
    let mut interp = load_rom(&[0xC0, 0x0F]);
    interp.process_opcode_with(0xAB).unwrap();
    assert_eq!(interp.get_register(0), 0x0B);
}

#[test]
fn address_register_instructions() {
    let mut interp = load_rom(&[0xAF, 0xFF, 0x60, 200, 0xF0, 0x1E]);
    step(&mut interp);
    assert_eq!(interp.get_i(), 0xFFF);
    step(&mut interp);
    step(&mut interp);
    assert_eq!(interp.get_i(), 0xFFF + 200);
    // FX29: the glyph for digit 0xA sits at 5 * 10 = 50.
    let mut interp2 = load_rom(&[0x60, 0x0A, 0xF0, 0x29]);
    step(&mut interp2);
    step(&mut interp2);
    assert_eq!(interp2.get_i(), 50);
}

#[test]
fn bcd_writes_three_digits() {
    let mut interp = load_rom(&[0xA3, 0x00, 0x60, 234, 0xF0, 0x33]);
    for _ in 0..3 {
        step(&mut interp);
    }
    assert_eq!(interp.get_memory_byte(0x300), 2);
    assert_eq!(interp.get_memory_byte(0x301), 3);
    assert_eq!(interp.get_memory_byte(0x302), 4);
}

#[test]
fn bcd_out_of_range_faults() {
    let mut interp = load_rom(&[0xAF, 0xFF, 0x60, 7, 0xF0, 0x33]);
    step(&mut interp);
    step(&mut interp);
    match interp.process_opcode_with(0) {
        Err(ExecFault::MemoryOutOfRange { addr, pc }) => {
            assert_eq!(addr, 0xFFF + 2);
            assert_eq!(pc, 0x204);
        }
        _ => panic!("a decimal store at the top of memory must fault"),
    }
}

#[test]
fn register_dump_out_of_range_faults() {
    let mut interp = load_rom(&[0xAF, 0xFF, 0xF2, 0x55]);
    step(&mut interp);
    match interp.process_opcode_with(0) {
        Err(ExecFault::MemoryOutOfRange { addr, pc }) => {
            assert_eq!(addr, 0xFFF + 2);
            assert_eq!(pc, 0x202);
        }
        _ => panic!("a register dump past the end of memory must fault"),
    }
}

#[test]
fn fetch_past_end_of_memory_faults() {
    // Jump to the last byte of memory: the next fetch needs two bytes and
    // only one is left.
    let mut interp = load_rom(&[0x1F, 0xFF]);
    step(&mut interp);
    assert_eq!(interp.get_pc(), 0xFFF);
    match interp.process_opcode_with(0) {
        Err(ExecFault::MemoryOutOfRange { addr, pc }) => {
            assert_eq!(addr, 0x1000);
            assert_eq!(pc, 0xFFF);
        }
        _ => panic!("a fetch at the last byte of memory must fault"),
    }
}

#[test]
fn timer_instructions() {
    let mut interp = load_rom(&[0x60, 42, 0xF0, 0x15, 0xF0, 0x18, 0x61, 0, 0xF1, 0x07]);
    for _ in 0..5 {
        step(&mut interp);
    }
    assert_eq!(interp.get_delay_timer(), 42);
    assert_eq!(interp.get_sound_timer(), 42);
    // FX07 read the delay timer back into v1.
    assert_eq!(interp.get_register(1), 42);
}

#[test]
fn key_skip_and_wait() {
    // EX9E skips when the key in v0 is down, and clears the key registers.
    let mut interp = load_rom(&[0x60, 0x04, 0xE0, 0x9E]);
    step(&mut interp);
    interp.set_key(4, true);
    step(&mut interp);
    assert_eq!(interp.get_pc(), 0x206);
    // EXA1 skips when the key is up.
    let mut interp2 = load_rom(&[0x60, 0x04, 0xE0, 0xA1]);
    step(&mut interp2);
    step(&mut interp2);
    assert_eq!(interp2.get_pc(), 0x206);
    // FX0A re-executes until a key is down, then stores its index.
    let mut interp3 = load_rom(&[0xF5, 0x0A]);
    step(&mut interp3);
    assert_eq!(interp3.get_pc(), 0x200);
    interp3.set_key(9, true);
    step(&mut interp3);
    assert_eq!(interp3.get_pc(), 0x202);
    assert_eq!(interp3.get_register(5), 9);
}

#[test]
fn key_index_out_of_range_faults() {
    let mut interp = load_rom(&[0x60, 0x10, 0xE0, 0x9E]);
    step(&mut interp);
    match interp.process_opcode_with(0) {
        Err(ExecFault::KeyOutOfRange { key, pc }) => {
            assert_eq!(key, 0x10);
            assert_eq!(pc, 0x202);
        }
        _ => panic!("a key test beyond the pad must fault"),
    }
}

#[test]
fn add_immediate_wraps_and_keeps_flag() {
    let mut interp = load_rom(&[0x6F, 9, 0x60, 0xFF, 0x70, 0x02]);
    for _ in 0..3 {
        step(&mut interp);
    }
    assert_eq!(interp.get_register(0), 1);
    assert_eq!(interp.get_register(15), 9);
}

#[test]
fn add_index_keeps_flag() {
    let mut interp = load_rom(&[0x6F, 5, 0x60, 0x10, 0xA1, 0x00, 0xF0, 0x1E]);
    for _ in 0..4 {
        step(&mut interp);
    }
    assert_eq!(interp.get_i(), 0x110);
    assert_eq!(interp.get_register(15), 5);
}

#[test]
fn wait_key_picks_lowest_pressed() {
    let mut interp = load_rom(&[0xF3, 0x0A]);
    interp.set_key(9, true);
    interp.set_key(2, true);
    step(&mut interp);
    assert_eq!(interp.get_register(3), 2);
    assert_eq!(interp.get_pc(), 0x202);
}

#[test]
fn key_skip_clears_key_registers() {
    let mut interp = load_rom(&[0x60, 0x04, 0xE0, 0xA1, 0xE0, 0x9E]);
    step(&mut interp);
    interp.set_key(4, true);
    // The key is down, so skip-if-up does not skip, and every key register
    // is cleared as a side effect.
    step(&mut interp);
    assert_eq!(interp.get_pc(), 0x204);
    // With the registers cleared, skip-if-down does not skip either.
    step(&mut interp);
    assert_eq!(interp.get_pc(), 0x206);
}
