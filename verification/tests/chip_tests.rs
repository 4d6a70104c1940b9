use chip8::chip::Chip8;
use chip8::display::Display;

fn boot(rom: &[u8]) -> Chip8 {
    let mut c = Chip8::new();
    let data: Vec<u8> = rom.to_vec();
    assert!(c.load_rom(&data));
    c
}

fn run(c: &mut Chip8, steps: usize) {
    for _ in 0..steps {
        c.decode();
    }
}

#[test]
fn fresh_machine_state() {
    let c = Chip8::new();
    assert_eq!(c.get_pc(), 0x200);
    assert_eq!(c.get_i(), 0);
    for r in 0..16 {
        assert_eq!(c.get_vx(r), 0);
    }
    assert!(!c.is_halted());
    assert!(!c.is_waiting_for_key());
    // the font occupies the first 80 bytes
    assert_eq!(c.get_mem(0), 0xF0);
    assert_eq!(c.get_mem(9), 0x70);
    assert_eq!(c.get_mem(79), 0x80);
    assert_eq!(c.get_mem(80), 0);
}

#[test]
fn load_rom_places_bytes_at_0x200() {
    let c = boot(&[0xAB, 0xCD]);
    assert_eq!(c.get_mem(0x200), 0xAB);
    assert_eq!(c.get_mem(0x201), 0xCD);
    assert_eq!(c.get_mem(0x202), 0);
}

#[test]
fn load_rom_rejects_oversized_image() {
    let mut c = Chip8::new();
    let big: Vec<u8> = vec![0x55; 3585];
    assert!(!c.load_rom(&big));
    assert_eq!(c.get_mem(0x200), 0);
    let exact: Vec<u8> = vec![0x55; 3584];
    assert!(c.load_rom(&exact));
    assert_eq!(c.get_mem(4095), 0x55);
}

#[test]
fn load_then_add_accumulates_mod_256() {
    let mut c = boot(&[0x60, 0x07, 0x70, 0x09]);
    run(&mut c, 2);
    assert_eq!(c.get_vx(0), 16);
    // and with wraparound
    let mut c = boot(&[0x63, 0xF0, 0x73, 0x20]);
    run(&mut c, 2);
    assert_eq!(c.get_vx(3), 0x10);
}

#[test]
fn add_with_carry_sets_vf_both_ways() {
    // 0xFF + 0x01 = 0x00 carry 1
    let mut c = boot(&[0x60, 0xFF, 0x61, 0x01, 0x80, 0x14]);
    run(&mut c, 3);
    assert_eq!(c.get_vx(0), 0x00);
    assert_eq!(c.get_vx(0xF), 1);
    // 0x01 + 0x01 = 0x02, and VF is assigned 0 on no carry
    let mut c = boot(&[0x60, 0x01, 0x61, 0x01, 0x80, 0x14]);
    run(&mut c, 3);
    assert_eq!(c.get_vx(0), 0x02);
    assert_eq!(c.get_vx(0xF), 0);
}

#[test]
fn sub_sets_vf_on_no_borrow() {
    // 5 - 3 = 2, no borrow: VF = 1
    let mut c = boot(&[0x60, 0x05, 0x61, 0x03, 0x80, 0x15]);
    run(&mut c, 3);
    assert_eq!(c.get_vx(0), 2);
    assert_eq!(c.get_vx(0xF), 1);
    // 3 - 5 wraps to 254, borrow: VF = 0
    let mut c = boot(&[0x60, 0x03, 0x61, 0x05, 0x80, 0x15]);
    run(&mut c, 3);
    assert_eq!(c.get_vx(0), 254);
    assert_eq!(c.get_vx(0xF), 0);
}

#[test]
fn sub_compares_as_signed_bytes() {
    // 0x80 reads as -128, so -128 > 1 is false: VF = 0, result wraps
    let mut c = boot(&[0x60, 0x80, 0x61, 0x01, 0x80, 0x15]);
    run(&mut c, 3);
    assert_eq!(c.get_vx(0), 0x7F);
    assert_eq!(c.get_vx(0xF), 0);
}

#[test]
fn subn_takes_wrapped_difference_and_sign() {
    // V0 = 5 - 3 = 2, non-negative: VF = 0
    let mut c = boot(&[0x60, 0x03, 0x61, 0x05, 0x80, 0x17]);
    run(&mut c, 3);
    assert_eq!(c.get_vx(0), 2);
    assert_eq!(c.get_vx(0xF), 0);
    // V0 = 3 - 5 = 254 wrapped, sign bit set: VF = 1
    let mut c = boot(&[0x60, 0x05, 0x61, 0x03, 0x80, 0x17]);
    run(&mut c, 3);
    assert_eq!(c.get_vx(0), 254);
    assert_eq!(c.get_vx(0xF), 1);
}

#[test]
fn bitwise_ops() {
    let mut c = boot(&[0x60, 0x0C, 0x61, 0x0A, 0x80, 0x11]);
    run(&mut c, 3);
    assert_eq!(c.get_vx(0), 0x0E);
    let mut c = boot(&[0x60, 0x0C, 0x61, 0x0A, 0x80, 0x12]);
    run(&mut c, 3);
    assert_eq!(c.get_vx(0), 0x08);
    let mut c = boot(&[0x60, 0x0C, 0x61, 0x0A, 0x80, 0x13]);
    run(&mut c, 3);
    assert_eq!(c.get_vx(0), 0x06);
    let mut c = boot(&[0x60, 0x0C, 0x61, 0x0A, 0x80, 0x10]);
    run(&mut c, 3);
    assert_eq!(c.get_vx(0), 0x0A);
}

#[test]
fn shifts_capture_the_moved_bit() {
    // 7 >> 1 = 3, low bit 1 into VF
    let mut c = boot(&[0x60, 0x07, 0x80, 0x06]);
    run(&mut c, 2);
    assert_eq!(c.get_vx(0), 3);
    assert_eq!(c.get_vx(0xF), 1);
    // 0x81 << 1 = 0x02 wrapped, high bit 1 into VF
    let mut c = boot(&[0x60, 0x81, 0x80, 0x0E]);
    run(&mut c, 2);
    assert_eq!(c.get_vx(0), 0x02);
    assert_eq!(c.get_vx(0xF), 1);
}

#[test]
fn end_to_end_add_program() {
    // V0 = 5; V1 = 10; V0 += V1
    let mut c = boot(&[0x60, 0x05, 0x61, 0x0A, 0x80, 0x14]);
    run(&mut c, 3);
    assert_eq!(c.get_vx(0), 15);
    assert_eq!(c.get_vx(0xF), 0);
}

#[test]
fn jump_and_jump_with_offset() {
    let mut c = boot(&[0x12, 0x00]);
    c.decode();
    assert_eq!(c.get_pc(), 0x200);
    let mut c = boot(&[0x60, 0x04, 0xB2, 0x06]);
    run(&mut c, 2);
    assert_eq!(c.get_pc(), 0x20A);
}

#[test]
fn skips_compare_as_expected() {
    // 3xnn taken: the skip lands two instructions past 0x202
    let mut c = boot(&[0x60, 0x07, 0x30, 0x07]);
    run(&mut c, 2);
    assert_eq!(c.get_pc(), 0x206);
    // 3xnn not taken
    let mut c = boot(&[0x60, 0x07, 0x30, 0x08]);
    run(&mut c, 2);
    assert_eq!(c.get_pc(), 0x204);
    // 4xnn taken
    let mut c = boot(&[0x60, 0x07, 0x40, 0x08]);
    run(&mut c, 2);
    assert_eq!(c.get_pc(), 0x206);
    // 5xy0 taken, 9xy0 not taken
    let mut c = boot(&[0x60, 0x07, 0x61, 0x07, 0x50, 0x10]);
    run(&mut c, 3);
    assert_eq!(c.get_pc(), 0x208);
    let mut c = boot(&[0x60, 0x07, 0x61, 0x07, 0x90, 0x10]);
    run(&mut c, 3);
    assert_eq!(c.get_pc(), 0x206);
}

#[test]
fn call_then_return_restores_pc() {
    // call 0x204; the routine there returns at once
    let mut c = boot(&[0x22, 0x04, 0xFF, 0xFF, 0x00, 0xEE]);
    c.decode();
    assert_eq!(c.get_pc(), 0x204);
    c.decode();
    assert_eq!(c.get_pc(), 0x202);
    assert!(!c.is_halted());
}

#[test]
fn return_on_empty_stack_is_fatal() {
    let mut c = boot(&[0x00, 0xEE]);
    c.decode();
    assert!(c.is_halted());
    // and a halted machine stays put
    c.decode();
    assert!(c.is_halted());
    assert_eq!(c.get_pc(), 0x200);
}

#[test]
fn sys_is_a_no_op() {
    let mut c = boot(&[0x01, 0x23]);
    c.decode();
    assert!(!c.is_halted());
    assert_eq!(c.get_pc(), 0x202);
}

#[test]
fn undecodable_opcodes_halt() {
    for rom in [
        [0x50u8, 0x01],  // 5xy1
        [0x80, 0x09],    // 8xy9
        [0x90, 0x05],    // 9xy5
        [0xE0, 0x55],    // Ex55
        [0xF0, 0x99],    // Fx99
    ] {
        let mut c = boot(&rom);
        c.decode();
        assert!(c.is_halted());
    }
}

#[test]
fn fetch_past_end_of_memory_halts() {
    let mut c = boot(&[0x1F, 0xFF]);
    c.decode();
    assert_eq!(c.get_pc(), 0xFFF);
    c.decode();
    assert!(c.is_halted());
}

#[test]
fn index_register_ops() {
    let mut c = boot(&[0xA1, 0x23]);
    c.decode();
    assert_eq!(c.get_i(), 0x123);
    // Fx1E adds without any 12-bit masking
    let mut c = boot(&[0xAF, 0xFF, 0x60, 0x10, 0xF0, 0x1E]);
    run(&mut c, 3);
    assert_eq!(c.get_i(), 0x100F);
    // Fx29 addresses the 5-byte font sprite of the digit
    let mut c = boot(&[0x60, 0x0A, 0xF0, 0x29]);
    run(&mut c, 2);
    assert_eq!(c.get_i(), 50);
}

#[test]
fn bcd_stores_decimal_digits() {
    let mut c = boot(&[0x60, 0x9C, 0xA3, 0x00, 0xF0, 0x33]);
    run(&mut c, 3);
    assert_eq!(c.get_mem(0x300), 1);
    assert_eq!(c.get_mem(0x301), 5);
    assert_eq!(c.get_mem(0x302), 6);
}

#[test]
fn store_and_load_register_windows() {
    let mut c = boot(&[0x60, 0x11, 0x61, 0x22, 0xA3, 0x00, 0xF1, 0x55]);
    run(&mut c, 4);
    assert_eq!(c.get_mem(0x300), 0x11);
    assert_eq!(c.get_mem(0x301), 0x22);
    assert_eq!(c.get_i(), 0x302);
    // read them back into V0..V1 of a fresh machine
    let mut c = boot(&[0xA2, 0x06, 0xF1, 0x65, 0x12, 0x04, 0x33, 0x44]);
    run(&mut c, 2);
    assert_eq!(c.get_vx(0), 0x33);
    assert_eq!(c.get_vx(1), 0x44);
    assert_eq!(c.get_i(), 0x208);
}

#[test]
fn store_window_past_end_of_memory_halts() {
    let mut c = boot(&[0xAF, 0xFF, 0xF1, 0x55]);
    run(&mut c, 2);
    assert!(c.is_halted());
}

#[test]
fn random_byte_lands_in_register_via_step_with() {
    let mut c = boot(&[0xC0, 0xFF]);
    c.step_with(0x5A, 0);
    assert_eq!(c.get_vx(0), 0x5A);
    assert_eq!(c.get_pc(), 0x202);
}

#[test]
fn timer_instructions_set_and_read() {
    // Fx07 stores the reading handed to the step
    let mut c = boot(&[0xF0, 0x07]);
    c.step_with(0, 7);
    assert_eq!(c.get_vx(0), 7);
    // Fx15 then an immediate Fx07 reads back at most the set value
    let mut c = boot(&[0x60, 0x02, 0xF0, 0x15, 0xF1, 0x07]);
    run(&mut c, 3);
    assert!(c.get_vx(1) <= 2);
}

#[test]
fn no_key_reads_pressed_before_the_first_press() {
    // Ex9E with Vx = 0 must not skip on a fresh machine: the latch is empty
    let mut c = boot(&[0x60, 0x00, 0xE0, 0x9E]);
    run(&mut c, 2);
    assert_eq!(c.get_pc(), 0x204);
    // and ExA1 ("key not pressed") must skip
    let mut c = boot(&[0x60, 0x00, 0xE0, 0xA1]);
    run(&mut c, 2);
    assert_eq!(c.get_pc(), 0x206);
}

#[test]
fn key_skip_instructions() {
    let mut c = boot(&[0x60, 0x05, 0xE0, 0x9E]);
    c.set_key_pressed(5);
    run(&mut c, 2);
    assert_eq!(c.get_pc(), 0x206);
    let mut c = boot(&[0x60, 0x05, 0xE0, 0xA1]);
    c.set_key_pressed(4);
    run(&mut c, 2);
    assert_eq!(c.get_pc(), 0x206);
    let mut c = boot(&[0x60, 0x05, 0xE0, 0xA1]);
    c.set_key_pressed(5);
    run(&mut c, 2);
    assert_eq!(c.get_pc(), 0x204);
}

#[test]
fn wait_for_key_suspends_until_a_press() {
    let mut c = boot(&[0xF3, 0x0A, 0x00, 0x00]);
    c.decode();
    assert!(c.is_waiting_for_key());
    assert_eq!(c.get_pc(), 0x200);
    // further steps make no progress while waiting
    c.decode();
    assert!(c.is_waiting_for_key());
    assert_eq!(c.get_pc(), 0x200);
    // a key event resumes, consuming the key into V3
    c.set_key_pressed(0xB);
    assert!(!c.is_waiting_for_key());
    assert_eq!(c.get_vx(3), 0xB);
    assert_eq!(c.get_pc(), 0x202);
}

#[test]
fn draw_sprite_with_collision_and_idempotence() {
    // I = 0 (font digit 0), drawn at (5, 3), height 5, twice
    let rom = [
        0x60, 0x05, 0x61, 0x03, 0xA0, 0x00, 0xD0, 0x15, 0xD0, 0x15,
    ];
    let mut c = boot(&rom);
    run(&mut c, 4);
    // first draw: pixels lit, no erasure
    assert_eq!(c.get_vx(0xF), 0);
    let lit = |c: &Chip8, x: usize, y: usize| {
        c.get_display_buffer()[Display::get_ind_from_pos(x, y)] == 1
    };
    // top row of the digit 0 sprite is 0xF0
    assert!(lit(&c, 5, 3));
    assert!(lit(&c, 6, 3));
    assert!(lit(&c, 7, 3));
    assert!(lit(&c, 8, 3));
    assert!(!lit(&c, 9, 3));
    // second identical draw erases everything and reports it
    run(&mut c, 1);
    assert_eq!(c.get_vx(0xF), 1);
    assert!(c.get_display_buffer().iter().all(|&p| p == 0));
}

#[test]
fn sprite_fetch_past_end_of_memory_halts() {
    let mut c = boot(&[0xAF, 0xFF, 0xD0, 0x02]);
    run(&mut c, 2);
    assert!(c.is_halted());
}

#[test]
fn clear_screen_instruction() {
    let rom = [0xA0, 0x00, 0xD0, 0x05, 0x00, 0xE0];
    let mut c = boot(&rom);
    run(&mut c, 2);
    assert!(c.get_display_buffer().iter().any(|&p| p == 1));
    run(&mut c, 1);
    assert!(c.get_display_buffer().iter().all(|&p| p == 0));
    assert_eq!(c.get_pc(), 0x206);
}

#[test]
fn vf_aliasing_follows_write_order() {
    // 8F14: VF is the destination, then the carry flag overwrites it
    let mut c = boot(&[0x6F, 0x01, 0x61, 0x01, 0x8F, 0x14]);
    run(&mut c, 3);
    assert_eq!(c.get_vx(0xF), 0);
}
