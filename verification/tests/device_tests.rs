//! Tests of the display buffer, the key registers, sprite drawing, and the
//! dual-rate scheduler.

use chip8::interpreter::Interpreter;
use chip8::keyboard::KeyboardDevice;
use chip8::video::VideoDevice;

fn load_rom_at_speed(bytes: &[u8], clockspeed: u32) -> Interpreter {
    Interpreter::load(&bytes.to_vec(), clockspeed, 0).unwrap()
}

#[test]
fn video_device_xor_and_dirty() {
    let mut vd = VideoDevice::new();
    assert_eq!(vd.get_width(), 64);
    assert_eq!(vd.get_height(), 32);
    assert_eq!(vd.get_pixel_byte_addr(3, 2), 3 + 2 * 64);
    assert!(vd.is_dirty());
    vd.present();
    assert!(!vd.is_dirty());
    assert_eq!(vd.get_pixel(3, 2), 0);
    vd.set_pixel(3, 2, 1);
    assert_eq!(vd.get_pixel(3, 2), 1);
    assert!(vd.is_dirty());
    vd.present();
    // XOR with 0 changes nothing and leaves the buffer clean.
    vd.set_pixel(3, 2, 0);
    assert_eq!(vd.get_pixel(3, 2), 1);
    assert!(!vd.is_dirty());
    // Only the low bit of the value counts.
    vd.set_pixel(3, 2, 3);
    assert_eq!(vd.get_pixel(3, 2), 0);
    assert!(vd.is_dirty());
    vd.set_pixel(3, 2, 1);
    vd.clear();
    assert_eq!(vd.get_pixel(3, 2), 0);
    assert!(vd.is_dirty());
}

#[test]
fn keyboard_device_tracks_lowest_key() {
    let mut kb = KeyboardDevice::new();
    assert_eq!(kb.get_key_press(), None);
    kb.set_key(7, true);
    kb.set_key(3, true);
    assert!(kb.is_key_pressed(3));
    assert!(kb.is_key_pressed(7));
    assert!(!kb.is_key_pressed(0));
    assert_eq!(kb.get_key_press(), Some(3));
    kb.set_key(3, false);
    assert_eq!(kb.get_key_press(), Some(7));
    kb.clear_keys();
    assert_eq!(kb.get_key_press(), None);
    assert!(!kb.is_key_pressed(7));
}

#[test]
fn draw_sets_pixels_and_reports_no_collision_on_blank() {
    // Draw the 5-row glyph stored at 0x20A (shape of the digit 0) at (0, 0).
    let mut interp = load_rom_at_speed(
        &[
            0x60, 0x00, 0x61, 0x00, // v0 := 0, v1 := 0
            0xA2, 0x0A, // I := 0x20A
            0xD0, 0x15, // draw 5 rows at (v0, v1)
            0x00, 0x00, // padding
            0xF0, 0x90, 0x90, 0x90, 0xF0, // the sprite rows
        ],
        400,
    );
    for _ in 0..4 {
        interp.process_opcode_with(0).unwrap();
    }
    // Row 0 is 0xF0: the four leftmost pixels are set.
    assert_eq!(interp.display_pixel(0, 0), 1);
    assert_eq!(interp.display_pixel(3, 0), 1);
    assert_eq!(interp.display_pixel(4, 0), 0);
    // Row 1 is 0x90.
    assert_eq!(interp.display_pixel(0, 1), 1);
    assert_eq!(interp.display_pixel(1, 1), 0);
    assert_eq!(interp.display_pixel(3, 1), 1);
    assert_eq!(interp.get_register(15), 0);
    assert!(interp.display_is_dirty());
}

#[test]
fn draw_twice_restores_screen_and_reports_collision() {
    let rom = [
        0x60, 0x00, 0x61, 0x00, 0xA2, 0x0C, 0xD0, 0x15, 0xD0, 0x15, 0x00, 0x00, 0xF0, 0x90, 0x90,
        0x90, 0xF0,
    ];
    let mut interp = load_rom_at_speed(&rom, 400);
    for _ in 0..4 {
        interp.process_opcode_with(0).unwrap();
    }
    assert_eq!(interp.get_register(15), 0);
    interp.process_opcode_with(0).unwrap();
    // The second draw unset every pixel the first one set.
    assert_eq!(interp.get_register(15), 1);
    for y in 0..32 {
        for x in 0..64 {
            assert_eq!(interp.display_pixel(x, y), 0);
        }
    }
}

#[test]
fn draw_clips_at_display_edges() {
    // Draw at (60, 30): only four columns and two rows fit.
    let mut interp = load_rom_at_speed(
        &[
            0x60, 60, 0x61, 30, 0xA2, 0x0A, 0xD0, 0x15, 0x00, 0x00, 0xFF, 0xFF, 0xFF, 0xFF, 0xFF,
        ],
        400,
    );
    for _ in 0..4 {
        interp.process_opcode_with(0).unwrap();
    }
    assert_eq!(interp.display_pixel(60, 30), 1);
    assert_eq!(interp.display_pixel(63, 31), 1);
    assert_eq!(interp.display_pixel(0, 30), 0);
    assert_eq!(interp.display_pixel(0, 0), 0);
    assert_eq!(interp.get_register(15), 0);
}

#[test]
fn draw_from_top_of_memory_faults() {
    let mut interp = load_rom_at_speed(&[0xAF, 0xFF, 0xD0, 0x05], 400);
    interp.process_opcode_with(0).unwrap();
    match interp.process_opcode_with(0) {
        Err(chip8::opcode::ExecFault::MemoryOutOfRange { addr, pc }) => {
            assert_eq!(addr, 0xFFF + 4);
            assert_eq!(pc, 0x202);
        }
        _ => panic!("reading sprite rows past the end of memory must fault"),
    }
}

#[test]
fn clear_screen_blanks_display() {
    let mut interp = load_rom_at_speed(
        &[0x60, 0, 0x61, 0, 0xA2, 0x0A, 0xD0, 0x15, 0x00, 0xE0, 0xF0, 0x90, 0x90, 0x90, 0xF0],
        400,
    );
    for _ in 0..4 {
        interp.process_opcode_with(0).unwrap();
    }
    assert_eq!(interp.display_pixel(0, 0), 1);
    interp.display_presented();
    assert!(!interp.display_is_dirty());
    interp.process_opcode_with(0).unwrap();
    assert_eq!(interp.display_pixel(0, 0), 0);
    assert!(interp.display_is_dirty());
}

#[test]
fn scheduler_paces_opcodes_and_frames_independently() {
    // Clock speed 10 Hz: the opcode period is 100000 us, far longer than the
    // 16667 us frame period.
    let mut interp = load_rom_at_speed(&[0x60, 5, 0xF0, 0x15, 0x12, 0x04], 10);
    // At time 0 both deadlines have passed: one opcode runs and one frame
    // tick runs.
    let act = interp.update(0).unwrap();
    assert!(act.opcode_fired);
    assert!(act.frame_fired);
    assert!(!act.sound_on);
    // Sleep until just before the sooner deadline (the frame at 16667):
    // 16667 / 10 * 9.
    assert_eq!(act.sleep_micros, Some(14994));
    assert_eq!(interp.get_register(0), 5);
    // Before either deadline nothing fires and there is no sleep hint.
    let act2 = interp.update(1).unwrap();
    assert!(!act2.opcode_fired);
    assert!(!act2.frame_fired);
    assert_eq!(act2.sleep_micros, None);
    // At the frame deadline only the frame fires.
    let act3 = interp.update(16667).unwrap();
    assert!(!act3.opcode_fired);
    assert!(act3.frame_fired);
    // At the opcode deadline the second instruction runs (delay := 5), and
    // the frame tick of the same iteration decrements it at once.
    let act4 = interp.update(100000).unwrap();
    assert!(act4.opcode_fired);
    assert!(act4.frame_fired);
    assert_eq!(interp.get_delay_timer(), 4);
}

#[test]
fn timers_saturate_at_zero_across_frames() {
    // Set the delay and sound timers to 3, then spin on a jump while frames
    // elapse: the timers count 3, 2, 1, 0 and stay at 0.
    let mut interp = load_rom_at_speed(&[0x60, 3, 0xF0, 0x15, 0xF0, 0x18, 0x12, 0x06], 1000000);
    for t in 0..3u128 {
        let act = interp.update(t).unwrap();
        assert!(act.opcode_fired);
        assert!(t > 0 || act.frame_fired);
    }
    assert_eq!(interp.get_delay_timer(), 3);
    assert_eq!(interp.get_sound_timer(), 3);
    let mut expected: u8 = 3;
    for k in 1..8u128 {
        let act = interp.update(k * 16667).unwrap();
        assert!(act.frame_fired);
        expected = expected.saturating_sub(1);
        assert_eq!(interp.get_delay_timer(), expected);
        assert_eq!(interp.get_sound_timer(), expected);
        assert_eq!(act.sound_on, expected > 0);
    }
    assert_eq!(interp.get_delay_timer(), 0);
    assert_eq!(interp.get_sound_timer(), 0);
}

#[test]
fn faulting_update_leaves_machine_untouched() {
    let mut interp = load_rom_at_speed(&[0xFF, 0xFF], 400);
    match interp.update(0) {
        Err(chip8::opcode::ExecFault::UnknownOpcode { opcode, pc }) => {
            assert_eq!(opcode, 0xFFFF);
            assert_eq!(pc, 0x200);
        }
        _ => panic!("the unknown opcode must fault through the scheduler"),
    }
    assert_eq!(interp.get_pc(), 0x200);
    assert_eq!(interp.get_delay_timer(), 0);
}
