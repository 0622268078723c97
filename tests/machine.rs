use chip8::chip::Chip;
use chip8::instr::{decode, Instr};
use chip8::keyboard::{keymap, Keyboard};
use chip8::machine::ChipError;
use chip8::renderer::{Renderer, OFF, ON};

fn machine_with(program: &[u8]) -> Chip {
    let mut chip = Chip::new(10);
    chip.load_rom(&program.to_vec()).unwrap();
    chip
}

fn run(chip: &mut Chip, ticks: usize) {
    for _ in 0..ticks {
        chip.tick_with(0).unwrap();
    }
}

#[test]
fn new_machine_state() {
    let chip = Chip::new(7);
    assert_eq!(chip.pc(), 0x200);
    assert_eq!(chip.speed(), 7);
    assert_eq!(chip.index(), 0);
    assert_eq!(chip.stack_depth(), 0);
    assert_eq!(chip.waiting_register(), None);
    assert_eq!(chip.read_memory(0), Some(0xF0));
    assert_eq!(chip.read_memory(79), Some(0x80));
    assert_eq!(chip.read_memory(80), Some(0));
    assert_eq!(chip.read_memory(4096), None);
    for x in 0..16u8 {
        assert_eq!(chip.register(x), 0);
    }
}

#[test]
fn load_then_read_register() {
    for x in 0..16u8 {
        let mut chip = machine_with(&[0x60 | x, 0x42]);
        chip.tick_with(0).unwrap();
        assert_eq!(chip.register(x), 0x42);
        assert_eq!(chip.pc(), 0x202);
    }
}

#[test]
fn add_immediate_twice_wraps_without_flag() {
    let mut chip = machine_with(&[0x63, 0x05, 0x73, 0xFF, 0x73, 0xFF]);
    run(&mut chip, 3);
    assert_eq!(chip.register(3), ((5u32 + 0x1FE) % 256) as u8);
    assert_eq!(chip.register(0xF), 0);
}

#[test]
fn add_registers_sets_carry() {
    let mut chip = machine_with(&[0x60, 0xFF, 0x61, 0x01, 0x80, 0x14]);
    run(&mut chip, 3);
    assert_eq!(chip.register(0), 0x00);
    assert_eq!(chip.register(0xF), 1);

    let mut chip = machine_with(&[0x60, 0x01, 0x61, 0x01, 0x80, 0x14]);
    run(&mut chip, 3);
    assert_eq!(chip.register(0), 0x02);
    assert_eq!(chip.register(0xF), 0);
}

#[test]
fn sub_registers_sets_no_borrow() {
    let mut chip = machine_with(&[0x60, 0x05, 0x61, 0x03, 0x80, 0x15]);
    run(&mut chip, 3);
    assert_eq!(chip.register(0), 0x02);
    assert_eq!(chip.register(0xF), 1);

    let mut chip = machine_with(&[0x60, 0x03, 0x61, 0x05, 0x80, 0x15]);
    run(&mut chip, 3);
    assert_eq!(chip.register(0), 0xFE);
    assert_eq!(chip.register(0xF), 0);
}

#[test]
fn subn_shift_and_bitwise() {
    // V0 = 3, V1 = 5, V2 = V1 - V0 via 8217 after V2 = 3
    let mut chip = machine_with(&[0x62, 0x03, 0x61, 0x05, 0x82, 0x17]);
    run(&mut chip, 3);
    assert_eq!(chip.register(2), 2);
    assert_eq!(chip.register(0xF), 1);

    let mut chip = machine_with(&[0x64, 0x81, 0x84, 0x06]);
    run(&mut chip, 2);
    assert_eq!(chip.register(4), 0x40);
    assert_eq!(chip.register(0xF), 1);

    let mut chip = machine_with(&[0x64, 0x81, 0x84, 0x0E]);
    run(&mut chip, 2);
    assert_eq!(chip.register(4), 0x02);
    assert_eq!(chip.register(0xF), 1);

    let mut chip = machine_with(&[0x60, 0xF0, 0x61, 0x3C, 0x80, 0x11, 0x62, 0xF0, 0x82, 0x12, 0x63, 0xF0, 0x83, 0x13]);
    run(&mut chip, 7);
    assert_eq!(chip.register(0), 0xFC);
    assert_eq!(chip.register(2), 0x30);
    assert_eq!(chip.register(3), 0xCC);

    let mut chip = machine_with(&[0x61, 0x77, 0x80, 0x10]);
    run(&mut chip, 2);
    assert_eq!(chip.register(0), 0x77);
}

#[test]
fn draw_digit_zero_twice_clears_and_collides() {
    // V0 = 10, V1 = 7, V2 = 0, I = glyph of V2, draw, draw
    let mut chip = machine_with(&[
        0x60, 0x0A, 0x61, 0x07, 0x62, 0x00, 0xF2, 0x29, 0xD0, 0x15, 0xD0, 0x15,
    ]);
    run(&mut chip, 5);
    assert_eq!(chip.index(), 0);
    assert_eq!(chip.register(0xF), 0);
    assert!(chip.pixel(10, 7));
    assert!(chip.pixel(13, 7));
    assert!(!chip.pixel(14, 7));
    assert!(chip.pixel(10, 8));
    assert!(!chip.pixel(11, 8));
    run(&mut chip, 1);
    assert_eq!(chip.register(0xF), 1);
    for y in 0..32u8 {
        for x in 0..64u8 {
            assert!(!chip.pixel(x, y));
        }
    }
}

#[test]
fn draw_wraps_around_edges() {
    // V0 = 62, V1 = 31, I = 0 (glyph 0), draw 2 rows
    let mut chip = machine_with(&[0x60, 62, 0x61, 31, 0xA0, 0x00, 0xD0, 0x12]);
    run(&mut chip, 4);
    assert!(chip.pixel(62, 31));
    assert!(chip.pixel(63, 31));
    assert!(chip.pixel(0, 31));
    assert!(chip.pixel(1, 31));
    assert!(!chip.pixel(2, 31));
    assert!(chip.pixel(62, 0));
    assert!(!chip.pixel(63, 0));
    assert!(chip.pixel(1, 0));
    assert_eq!(chip.register(0xF), 0);
}

#[test]
fn clear_screen_darkens_everything() {
    let mut chip = machine_with(&[0xA0, 0x00, 0xD0, 0x05, 0x00, 0xE0]);
    run(&mut chip, 2);
    assert!(chip.pixel(0, 0));
    run(&mut chip, 1);
    assert!(!chip.pixel(0, 0));
    assert_eq!(chip.pc(), 0x206);
}

#[test]
fn call_then_return_resumes_after_call() {
    let mut chip = machine_with(&[0x22, 0x08, 0x00, 0x00, 0x00, 0x00, 0x00, 0x00, 0x00, 0xEE]);
    chip.tick_with(0).unwrap();
    assert_eq!(chip.pc(), 0x208);
    assert_eq!(chip.stack_depth(), 1);
    chip.tick_with(0).unwrap();
    assert_eq!(chip.pc(), 0x202);
    assert_eq!(chip.stack_depth(), 0);
}

#[test]
fn jumps() {
    let mut chip = machine_with(&[0x12, 0x34]);
    chip.tick_with(0).unwrap();
    assert_eq!(chip.pc(), 0x234);

    let mut chip = machine_with(&[0x60, 0x10, 0xB3, 0x00]);
    run(&mut chip, 2);
    assert_eq!(chip.pc(), 0x310);
}

#[test]
fn skips() {
    let mut chip = machine_with(&[0x60, 0x07, 0x30, 0x07]);
    run(&mut chip, 2);
    assert_eq!(chip.pc(), 0x206);

    let mut chip = machine_with(&[0x60, 0x07, 0x40, 0x07]);
    run(&mut chip, 2);
    assert_eq!(chip.pc(), 0x204);

    let mut chip = machine_with(&[0x60, 0x07, 0x61, 0x07, 0x50, 0x10]);
    run(&mut chip, 3);
    assert_eq!(chip.pc(), 0x208);

    let mut chip = machine_with(&[0x60, 0x07, 0x61, 0x07, 0x90, 0x10]);
    run(&mut chip, 3);
    assert_eq!(chip.pc(), 0x206);
}

#[test]
fn key_skips() {
    let mut chip = machine_with(&[0x60, 0x0C, 0xE0, 0x9E, 0x00, 0x00, 0xE0, 0xA1]);
    chip.key_down(0xC);
    run(&mut chip, 2);
    assert_eq!(chip.pc(), 0x206);
    chip.key_up(0xC);
    run(&mut chip, 1);
    assert_eq!(chip.pc(), 0x20A);
}

#[test]
fn delay_timer_counts_down_to_zero() {
    let mut chip = machine_with(&[0x65, 0x05, 0xF5, 0x15, 0xF6, 0x07]);
    run(&mut chip, 2);
    assert_eq!(chip.delay_timer(), 5);
    for _ in 0..5 {
        chip.advance_timers();
    }
    assert_eq!(chip.delay_timer(), 0);
    chip.advance_timers();
    assert_eq!(chip.delay_timer(), 0);
    run(&mut chip, 1);
    assert_eq!(chip.register(6), 0);
}

#[test]
fn sound_timer_drives_tone() {
    let mut chip = machine_with(&[0x65, 0x02, 0xF5, 0x18]);
    run(&mut chip, 2);
    assert_eq!(chip.sound_timer(), 2);
    assert!(chip.sound_active());
    chip.advance_timers();
    assert!(chip.sound_active());
    chip.advance_timers();
    assert!(!chip.sound_active());
}

#[test]
fn key_wait_freezes_until_key() {
    let mut chip = machine_with(&[0x64, 0x09, 0xF4, 0x15, 0xF3, 0x0A, 0x61, 0x07]);
    run(&mut chip, 3);
    assert_eq!(chip.waiting_register(), Some(3));
    assert_eq!(chip.pc(), 0x206);
    for _ in 0..100 {
        chip.tick_with(0).unwrap();
        chip.advance_timers();
    }
    assert_eq!(chip.pc(), 0x206);
    assert_eq!(chip.delay_timer(), 9);
    chip.key_down(0xB);
    assert_eq!(chip.register(3), 0xB);
    assert_eq!(chip.waiting_register(), None);
    assert!(chip.is_key_pressed(0xB));
    chip.tick_with(0).unwrap();
    assert_eq!(chip.register(1), 7);
    assert_eq!(chip.pc(), 0x208);
    chip.advance_timers();
    assert_eq!(chip.delay_timer(), 8);
}

#[test]
fn handle_input_maps_physical_keys() {
    let mut chip = machine_with(&[0xF2, 0x0A]);
    run(&mut chip, 1);
    // physical code 26 is Q, hex key 4; code 0 is unmapped
    chip.handle_input(&vec![0, 26], &vec![]);
    assert_eq!(chip.register(2), 4);
    assert_eq!(chip.waiting_register(), None);
    assert!(chip.is_key_pressed(4));
    chip.handle_input(&vec![], &vec![26]);
    assert!(!chip.is_key_pressed(4));
}

#[test]
fn unknown_opcode_5001_changes_nothing() {
    let mut chip = machine_with(&[0x50, 0x01]);
    assert_eq!(chip.tick_with(0), Err(ChipError::UnknownOpcode(0x5001)));
    assert_eq!(chip.pc(), 0x200);
    for x in 0..16u8 {
        assert_eq!(chip.register(x), 0);
    }
}

#[test]
fn other_unknown_opcodes() {
    for op in [0x0123u16, 0x9001, 0x8008, 0xE000, 0xF0FF] {
        let mut chip = machine_with(&[(op >> 8) as u8, op as u8]);
        assert_eq!(chip.tick_with(0), Err(ChipError::UnknownOpcode(op)));
    }
}

#[test]
fn stack_overflow_and_underflow() {
    let mut chip = machine_with(&[0x22, 0x00]);
    for _ in 0..16 {
        chip.tick_with(0).unwrap();
    }
    assert_eq!(chip.stack_depth(), 16);
    assert_eq!(chip.tick_with(0), Err(ChipError::StackOverflow));
    assert_eq!(chip.stack_depth(), 16);

    let mut chip = machine_with(&[0x00, 0xEE]);
    assert_eq!(chip.tick_with(0), Err(ChipError::StackUnderflow));
    assert_eq!(chip.pc(), 0x200);
}

#[test]
fn out_of_bounds_accesses() {
    let mut chip = machine_with(&[0xAF, 0xFF, 0xF0, 0x33]);
    chip.tick_with(0).unwrap();
    assert_eq!(chip.tick_with(0), Err(ChipError::OutOfBoundsMemoryAccess));

    let mut chip = machine_with(&[0xAF, 0xFE, 0xD0, 0x03]);
    chip.tick_with(0).unwrap();
    assert_eq!(chip.tick_with(0), Err(ChipError::OutOfBoundsMemoryAccess));

    let mut chip = machine_with(&[0xAF, 0xFF, 0xF1, 0x55]);
    chip.tick_with(0).unwrap();
    assert_eq!(chip.tick_with(0), Err(ChipError::OutOfBoundsMemoryAccess));

    let mut chip = machine_with(&[0x1F, 0xFF]);
    chip.tick_with(0).unwrap();
    assert_eq!(chip.tick_with(0), Err(ChipError::OutOfBoundsMemoryAccess));
}

#[test]
fn rom_size_limit() {
    let mut chip = Chip::new(10);
    assert_eq!(chip.load_rom(&vec![0xAB; 3585]), Err(ChipError::RomTooLarge));
    assert_eq!(chip.read_memory(0x200), Some(0));
    assert_eq!(chip.load_rom(&vec![0xAB; 3584]), Ok(()));
    assert_eq!(chip.read_memory(0x200), Some(0xAB));
    assert_eq!(chip.read_memory(4095), Some(0xAB));
}

#[test]
fn bcd_and_register_transfer() {
    let mut chip = machine_with(&[0x60, 254, 0xA3, 0x00, 0xF0, 0x33]);
    run(&mut chip, 3);
    assert_eq!(chip.read_memory(0x300), Some(2));
    assert_eq!(chip.read_memory(0x301), Some(5));
    assert_eq!(chip.read_memory(0x302), Some(4));

    let mut chip = machine_with(&[
        0x60, 0x11, 0x61, 0x22, 0x62, 0x33, 0xA3, 0x00, 0xF2, 0x55, 0x60, 0x00, 0x61, 0x00, 0x62,
        0x00, 0xF1, 0x65,
    ]);
    run(&mut chip, 9);
    assert_eq!(chip.read_memory(0x302), Some(0x33));
    assert_eq!(chip.read_memory(0x303), Some(0));
    assert_eq!(chip.register(0), 0x11);
    assert_eq!(chip.register(1), 0x22);
    assert_eq!(chip.register(2), 0);
}

#[test]
fn index_register_arithmetic() {
    let mut chip = machine_with(&[0xA1, 0x00, 0x60, 0x20, 0xF0, 0x1E, 0x61, 0x0F, 0xF1, 0x29]);
    run(&mut chip, 3);
    assert_eq!(chip.index(), 0x120);
    run(&mut chip, 2);
    assert_eq!(chip.index(), 75);
}

#[test]
fn random_byte_is_masked() {
    let mut chip = machine_with(&[0xC0, 0x00, 0xC1, 0x0F]);
    chip.tick().unwrap();
    assert_eq!(chip.register(0), 0);
    chip.tick().unwrap();
    assert!(chip.register(1) <= 0x0F);

    let mut chip = machine_with(&[0xC2, 0x3C]);
    chip.tick_with(0xFF).unwrap();
    assert_eq!(chip.register(2), 0x3C);
}

#[test]
fn cycle_runs_speed_ticks_then_timers() {
    let mut chip = Chip::new(3);
    chip.load_rom(&vec![0x60, 0x04, 0xF0, 0x15, 0x61, 0x09, 0x62, 0x01]).unwrap();
    assert_eq!(chip.cycle(), Ok(()));
    assert_eq!(chip.pc(), 0x206);
    assert_eq!(chip.register(1), 9);
    assert_eq!(chip.register(2), 0);
    assert_eq!(chip.delay_timer(), 3);

    let mut chip = Chip::new(3);
    chip.load_rom(&vec![0x60, 0x04, 0xF0, 0x15, 0x50, 0x01]).unwrap();
    assert_eq!(chip.cycle(), Err(ChipError::UnknownOpcode(0x5001)));
    assert_eq!(chip.delay_timer(), 4);
}

#[test]
fn render_scales_pixels() {
    let mut chip = machine_with(&[0xA0, 0x00, 0xD0, 0x01]);
    run(&mut chip, 2);
    let frame = chip.render();
    assert_eq!(frame.len(), 640 * 320);
    assert_eq!(frame[0], ON);
    assert_eq!(frame[39], ON);
    assert_eq!(frame[40], OFF);
    assert_eq!(frame[9 * 640], ON);
    assert_eq!(frame[10 * 640], OFF);
}

#[test]
fn renderer_xor_and_clear() {
    let mut r = Renderer::new(2);
    assert!(!r.xor_pixel(65, 33));
    assert!(r.is_on(1, 1));
    assert!(r.xor_pixel(1, 1));
    assert!(!r.is_on(1, 1));
    r.xor_pixel(0, 0);
    let frame = r.render();
    assert_eq!(frame.len(), 128 * 64);
    assert_eq!(frame[0], ON);
    assert_eq!(frame[129], ON);
    assert_eq!(frame[2], OFF);
    r.clear();
    assert!(!r.is_on(0, 0));
}

#[test]
fn keymap_table() {
    assert_eq!(keymap(1), Some(0x1));
    assert_eq!(keymap(4), Some(0xC));
    assert_eq!(keymap(26), Some(0x4));
    assert_eq!(keymap(33), Some(0x0));
    assert_eq!(keymap(31), Some(0xF));
    assert_eq!(keymap(0), None);
    assert_eq!(keymap(200), None);
}

#[test]
fn keyboard_events() {
    let mut kb = Keyboard::new();
    assert!(!kb.is_key_pressed(4));
    kb.key_pressed(26);
    assert!(kb.is_key_pressed(4));
    kb.key_pressed(0);
    kb.key_released(26);
    assert!(!kb.is_key_pressed(4));
    assert!(!kb.is_key_pressed(16));
    kb.set_key(0xF, true);
    assert!(kb.is_key_pressed(0xF));
}

#[test]
fn decode_table() {
    assert_eq!(decode(0x00E0), Some(Instr::Cls));
    assert_eq!(decode(0x00EE), Some(Instr::Ret));
    assert_eq!(decode(0x2ABC), Some(Instr::Call { nnn: 0xABC }));
    assert_eq!(decode(0x8AB4), Some(Instr::AddVv { x: 0xA, y: 0xB }));
    assert_eq!(decode(0xD125), Some(Instr::Drw { x: 1, y: 2, n: 5 }));
    assert_eq!(decode(0xF765), Some(Instr::LdVsFromMem { x: 7 }));
    assert_eq!(decode(0x5001), None);
    assert_eq!(decode(0x0000), None);
}
